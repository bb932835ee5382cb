//! The sound device: which ALSA card is there, its playback volume and mute
//! state, read from the outputs of `aplay`, `amixer` and `/proc/asound/cards`.
use vstd::prelude::*;
use crate::modem::find_map_from;
use crate::text::{
    chars_of, contains, contains_char, contains_char_exec, contains_exec, find, find_char,
    find_exec, find_char_exec, lemma_find, lines_exec, lines_of, parse_u8, parse_unsigned,
    slice_chars, string_from_chars, trim, trim_exec, views,
};

verus! {

/// The command outputs and file contents that the audio status is read from;
/// `None` where the command failed or the file is missing or unreadable.
pub struct AudioProbe {
    /// `aplay -l`
    pub aplay_list: Option<String>,
    /// `/proc/asound/cards`
    pub asound_cards: Option<String>,
    /// `amixer -M get PCM`
    pub amixer_pcm: Option<String>,
    /// `amixer -M get Speaker`
    pub amixer_speaker: Option<String>,
}

/// The state of the sound device.
pub struct AudioStatus {
    pub device_available: bool,
    pub device_name: Option<String>,
    /// Whether a microphone level was sampled (the level reads as silence).
    pub mic_sampled: bool,
    pub volume_pct: Option<u8>,
    pub muted: bool,
}

pub open spec fn opt_view(o: Option<String>) -> Option<Seq<char>> {
    match o {
        Some(s) => Some(s@),
        None => None,
    }
}

/// The device named by a line of `aplay -l`: card 0, called `USB Audio Device`
/// when it is a USB audio card, else the line from `card 0` on.
pub open spec fn aplay_line(l: Seq<char>) -> Option<Seq<char>> {
    if contains(l, "card 0"@) {
        if contains(l, "USB Audio"@) {
            Some("USB Audio Device"@)
        } else {
            match find(l, "card 0"@) {
                Some(i) => Some(l.skip(i)),
                None => None,
            }
        }
    } else {
        None
    }
}

pub open spec fn aplay_line_f() -> spec_fn(Seq<char>) -> Option<Seq<char>> {
    |l: Seq<char>| aplay_line(l)
}

/// A line of `/proc/asound/cards` naming a USB, WM8960 or HAT card, trimmed.
pub open spec fn cards_line(l: Seq<char>) -> Option<Seq<char>> {
    if contains(l, "USB"@) || contains(l, "wm8960"@) || contains(l, "HAT"@) {
        Some(trim(l))
    } else {
        None
    }
}

pub open spec fn cards_line_f() -> spec_fn(Seq<char>) -> Option<Seq<char>> {
    |l: Seq<char>| cards_line(l)
}

/// The sound device's name. Without `aplay` there is none; else the first line
/// of its listing that names card 0 decides; else the first card of
/// `/proc/asound/cards` of a known kind, or the board's headphone output when
/// that file lists anything.
pub open spec fn alsa_device_spec(p: AudioProbe) -> Option<Seq<char>> {
    match p.aplay_list {
        None => None,
        Some(a) => match find_map_from(lines_of(a@), aplay_line_f(), 0) {
            Some(d) => Some(d),
            None => match p.asound_cards {
                None => None,
                Some(c) => match find_map_from(lines_of(c@), cards_line_f(), 0) {
                    Some(d) => Some(d),
                    None => if lines_of(c@).len() > 0 {
                        Some("bcm2835 Headphones"@)
                    } else {
                        None
                    },
                },
            },
        },
    }
}

/// The volume read from a line of `amixer` that holds `[` and `%`: the text
/// between the first `[` and the next `%`, trimmed, as a `u8` (`(true, v)`);
/// `(false, None)` where no `%` follows the `[`, which ends the search.
pub open spec fn volume_line(l: Seq<char>) -> Option<(bool, Option<u8>)> {
    if contains_char(l, '[') && contains_char(l, '%') {
        match find_char(l, '[') {
            Some(start) => match find_char(l.skip(start), '%') {
                Some(end) => Some(
                    (
                        true,
                        match parse_unsigned(trim(l.subrange(start + 1, start + end)), 255) {
                            Some(v) => Some(v as u8),
                            None => None,
                        },
                    ),
                ),
                None => Some((false, None)),
            },
            None => None,
        }
    } else {
        None
    }
}

pub open spec fn volume_line_f() -> spec_fn(Seq<char>) -> Option<(bool, Option<u8>)> {
    |l: Seq<char>| volume_line(l)
}

/// The playback volume in percent: from the PCM control, or, where its output
/// has no volume line, from the Speaker control.
pub open spec fn volume_spec(p: AudioProbe) -> Option<u8> {
    match p.amixer_pcm {
        None => None,
        Some(t) => match find_map_from(lines_of(t@), volume_line_f(), 0) {
            Some(found) => if found.0 {
                found.1
            } else {
                None
            },
            None => match p.amixer_speaker {
                None => None,
                Some(s) => match find_map_from(lines_of(s@), volume_line_f(), 0) {
                    Some(found) => if found.0 {
                        found.1
                    } else {
                        None
                    },
                    None => None,
                },
            },
        },
    }
}

/// Whether the PCM control is switched off.
pub open spec fn muted_spec(p: AudioProbe) -> bool {
    match p.amixer_pcm {
        Some(t) => contains(t@, "[off]"@),
        None => false,
    }
}

fn aplay_line_exec(l: &[char]) -> (r: Option<Vec<char>>)
    ensures
        match r {
            Some(v) => aplay_line(l@) == Some(v@),
            None => aplay_line(l@) is None,
        },
{
    let card = chars_of("card 0");
    let usb = chars_of("USB Audio");
    match find_exec(l, card.as_slice()) {
        Some(i) => {
            proof {
                lemma_find(l@, card@);
            }
            if contains_exec(l, usb.as_slice()) {
                Some(chars_of("USB Audio Device"))
            } else {
                let r = slice_chars(l, i, l.len());
                assert(r@ =~= l@.skip(i as int));
                Some(r)
            }
        },
        None => {
            proof {
                lemma_find(l@, card@);
            }
            None
        },
    }
}

fn cards_line_exec(l: &[char]) -> (r: Option<Vec<char>>)
    ensures
        match r {
            Some(v) => cards_line(l@) == Some(v@),
            None => cards_line(l@) is None,
        },
{
    let a = chars_of("USB");
    let b = chars_of("wm8960");
    let c = chars_of("HAT");
    if contains_exec(l, a.as_slice()) || contains_exec(l, b.as_slice()) || contains_exec(
        l,
        c.as_slice(),
    ) {
        Some(trim_exec(l))
    } else {
        None
    }
}

fn volume_line_exec(l: &[char]) -> (r: Option<(bool, Option<u8>)>)
    ensures
        r == volume_line(l@),
{
    if contains_char_exec(l, '[') && contains_char_exec(l, '%') {
        match find_char_exec(l, '[') {
            Some(start) => {
                let rest = slice_chars(l, start, l.len());
                assert(rest@ =~= l@.skip(start as int));
                match find_char_exec(rest.as_slice(), '%') {
                    Some(end) => {
                        let piece = slice_chars(l, start + 1, start + end);
                        let t = trim_exec(piece.as_slice());
                        Some((true, parse_u8(t.as_slice())))
                    },
                    None => Some((false, None)),
                }
            },
            None => None,
        }
    } else {
        None
    }
}

fn first_aplay(ls: &Vec<Vec<char>>) -> (r: Option<Vec<char>>)
    ensures
        match r {
            Some(v) => find_map_from(views(ls@), aplay_line_f(), 0) == Some(v@),
            None => find_map_from(views(ls@), aplay_line_f(), 0) is None,
        },
{
    let ghost f = aplay_line_f();
    let mut i: usize = 0;
    while i < ls.len()
        invariant
            f == aplay_line_f(),
            i <= ls@.len(),
            find_map_from(views(ls@), f, 0) == find_map_from(views(ls@), f, i as int),
        decreases ls@.len() - i,
    {
        assert(views(ls@)[i as int] == ls@[i as int]@);
        match aplay_line_exec(ls[i].as_slice()) {
            Some(v) => {
                return Some(v);
            },
            None => {},
        }
        i = i + 1;
    }
    None
}

fn first_card(ls: &Vec<Vec<char>>) -> (r: Option<Vec<char>>)
    ensures
        match r {
            Some(v) => find_map_from(views(ls@), cards_line_f(), 0) == Some(v@),
            None => find_map_from(views(ls@), cards_line_f(), 0) is None,
        },
{
    let ghost f = cards_line_f();
    let mut i: usize = 0;
    while i < ls.len()
        invariant
            f == cards_line_f(),
            i <= ls@.len(),
            find_map_from(views(ls@), f, 0) == find_map_from(views(ls@), f, i as int),
        decreases ls@.len() - i,
    {
        assert(views(ls@)[i as int] == ls@[i as int]@);
        match cards_line_exec(ls[i].as_slice()) {
            Some(v) => {
                return Some(v);
            },
            None => {},
        }
        i = i + 1;
    }
    None
}

fn first_volume(ls: &Vec<Vec<char>>) -> (r: Option<(bool, Option<u8>)>)
    ensures
        r == find_map_from(views(ls@), volume_line_f(), 0),
{
    let ghost f = volume_line_f();
    let mut i: usize = 0;
    while i < ls.len()
        invariant
            f == volume_line_f(),
            i <= ls@.len(),
            find_map_from(views(ls@), f, 0) == find_map_from(views(ls@), f, i as int),
        decreases ls@.len() - i,
    {
        assert(views(ls@)[i as int] == ls@[i as int]@);
        match volume_line_exec(ls[i].as_slice()) {
            Some(v) => {
                return Some(v);
            },
            None => {},
        }
        i = i + 1;
    }
    None
}

/// The name of the sound device.
pub fn find_alsa_device(probe: &AudioProbe) -> (r: Option<String>)
    ensures
        opt_view(r) == alsa_device_spec(*probe),
{
    let a = match &probe.aplay_list {
        None => {
            return None;
        },
        Some(a) => a,
    };
    let ls = lines_exec(chars_of(a.as_str()).as_slice());
    match first_aplay(&ls) {
        Some(d) => {
            return Some(string_from_chars(d.as_slice()));
        },
        None => {},
    }
    match &probe.asound_cards {
        None => None,
        Some(c) => {
            let cl = lines_exec(chars_of(c.as_str()).as_slice());
            match first_card(&cl) {
                Some(d) => Some(string_from_chars(d.as_slice())),
                None => {
                    if cl.len() > 0 {
                        Some(String::from_str("bcm2835 Headphones"))
                    } else {
                        None
                    }
                },
            }
        },
    }
}

/// The playback volume in percent.
pub fn get_volume_pct(probe: &AudioProbe) -> (r: Option<u8>)
    ensures
        r == volume_spec(*probe),
{
    let t = match &probe.amixer_pcm {
        None => {
            return None;
        },
        Some(t) => t,
    };
    let ls = lines_exec(chars_of(t.as_str()).as_slice());
    match first_volume(&ls) {
        Some(found) => {
            return if found.0 {
                found.1
            } else {
                None
            };
        },
        None => {},
    }
    match &probe.amixer_speaker {
        None => None,
        Some(s) => {
            let sl = lines_exec(chars_of(s.as_str()).as_slice());
            match first_volume(&sl) {
                Some(found) => if found.0 {
                    found.1
                } else {
                    None
                },
                None => None,
            }
        },
    }
}

/// Whether playback is muted.
pub fn is_muted(probe: &AudioProbe) -> (r: bool)
    ensures
        r == muted_spec(*probe),
{
    match &probe.amixer_pcm {
        Some(t) => {
            let c = chars_of(t.as_str());
            let off = chars_of("[off]");
            contains_exec(c.as_slice(), off.as_slice())
        },
        None => false,
    }
}

/// The state of the sound device: available when a device is named; its volume
/// and mute state are read only then.
pub fn detect_audio_device(probe: &AudioProbe) -> (r: AudioStatus)
    ensures
        opt_view(r.device_name) == alsa_device_spec(*probe),
        r.device_available == alsa_device_spec(*probe) is Some,
        r.volume_pct == if r.device_available {
            volume_spec(*probe)
        } else {
            None
        },
        r.muted == (r.device_available && muted_spec(*probe)),
        !r.mic_sampled,
{
    let device_name = find_alsa_device(probe);
    let available = device_name.is_some();
    let volume_pct = if available {
        get_volume_pct(probe)
    } else {
        None
    };
    let muted = if available {
        is_muted(probe)
    } else {
        false
    };
    AudioStatus { device_available: available, device_name, mic_sampled: false, volume_pct, muted }
}

/// Whether an `arecord -l` listing shows a capture card.
pub fn lists_capture_card(listing: &str) -> (r: bool)
    ensures
        r == contains(listing@, "card"@),
{
    let c = chars_of(listing);
    let k = chars_of("card");
    contains_exec(c.as_slice(), k.as_slice())
}

/// Watches the sound device.
pub struct AudioMonitor;

impl AudioMonitor {
    pub fn new() -> (r: Self) {
        AudioMonitor
    }

    /// The state of the sound device, with a microphone level sampled where a
    /// device is available, `arecord` lists a capture card and the one-second
    /// recording was run (`recorded`).
    pub fn snapshot(&self, probe: &AudioProbe, arecord_list: Option<&str>, recorded: bool) -> (r:
        AudioStatus)
        ensures
            opt_view(r.device_name) == alsa_device_spec(*probe),
            r.device_available == alsa_device_spec(*probe) is Some,
            r.volume_pct == if r.device_available {
                volume_spec(*probe)
            } else {
                None
            },
            r.muted == (r.device_available && muted_spec(*probe)),
            r.mic_sampled == (r.device_available && match arecord_list {
                Some(l) => contains(l@, "card"@) && recorded,
                None => false,
            }),
    {
        let mut status = detect_audio_device(probe);
        if status.device_available {
            status.mic_sampled = match arecord_list {
                Some(l) => lists_capture_card(l) && recorded,
                None => false,
            };
        }
        status
    }
}

impl Default for AudioMonitor {
    fn default() -> (r: Self) {
        AudioMonitor::new()
    }
}

} // verus!
