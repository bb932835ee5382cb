//! NMEA 0183 sentences from the GPS receiver: GGA, RMC, GSV and GSA, and the
//! receiver status gathered from a stream of them. Coordinates, altitudes,
//! speeds and angles are kept as the text of their fields; turning that text
//! into floating-point numbers is left to the caller.
use vstd::prelude::*;
use crate::text::{
    chars_eq, chars_of, find_char, find_char_exec, is_ws, lemma_rfind_char_bound,
    lemma_rfind_prefixed, lemma_split_nonempty, lemma_split_prefix, lemma_trim_prefixed, parse_u32,
    parse_unsigned, rfind_char, rfind_char_exec, slice_chars, split_exec, split_on,
    string_from_chars, trim, trim_end, trim_exec, views,
};

verus! {

#[derive(Clone, Copy, Debug, Default, PartialEq, Eq, Structural)]
pub enum FixQuality {
    #[default]
    Invalid,
    Gps,
    Dgps,
    Pps,
    Rtk,
    FloatRtk,
    Estimated,
    Manual,
    Simulation,
}

/// A latitude or longitude as written in a sentence: the degree digits, the
/// minutes (with their fraction), and whether the hemisphere is south or west.
#[derive(Clone, Debug)]
pub struct Coordinate {
    pub degrees: String,
    pub minutes: String,
    pub negative: bool,
}

#[derive(Clone, Debug)]
pub struct GgaData {
    pub time: String,
    pub latitude: Option<Coordinate>,
    pub longitude: Option<Coordinate>,
    pub fix_quality: FixQuality,
    pub satellite_count: u32,
    pub altitude: Option<String>,
}

#[derive(Clone, Debug)]
pub struct RmcData {
    pub time: String,
    pub date: String,
    pub latitude: Option<Coordinate>,
    pub longitude: Option<Coordinate>,
    pub speed_knots: Option<String>,
    pub course: Option<String>,
    pub valid: bool,
}

/// A satellite in view: its PRN, and the text of its elevation, azimuth and SNR fields.
#[derive(Clone, Debug)]
pub struct SatelliteInfo {
    pub prn: u32,
    pub elevation: String,
    pub azimuth: String,
    pub snr: String,
    pub used: bool,
}

#[derive(Clone, Debug)]
pub struct GsvData {
    pub total_messages: u32,
    pub message_number: u32,
    pub total_sats: u32,
    pub sats: Vec<SatelliteInfo>,
}

#[derive(Clone, Debug)]
pub struct GsaData {
    pub mode: String,
    pub fix_type: String,
    pub sat_prns: Vec<u32>,
}

#[derive(Clone, Debug)]
pub enum NmeaMessage {
    Gga(GgaData),
    Rmc(RmcData),
    Gsv(GsvData),
    Gsa(GsaData),
}

// ---------------------------------------------------------------------
// Views
// ---------------------------------------------------------------------

pub struct CoordinateView {
    pub degrees: Seq<char>,
    pub minutes: Seq<char>,
    pub negative: bool,
}

pub struct GgaView {
    pub time: Seq<char>,
    pub latitude: Option<CoordinateView>,
    pub longitude: Option<CoordinateView>,
    pub fix_quality: FixQuality,
    pub satellite_count: u32,
    pub altitude: Option<Seq<char>>,
}

pub struct RmcView {
    pub time: Seq<char>,
    pub date: Seq<char>,
    pub latitude: Option<CoordinateView>,
    pub longitude: Option<CoordinateView>,
    pub speed_knots: Option<Seq<char>>,
    pub course: Option<Seq<char>>,
    pub valid: bool,
}

pub struct SatView {
    pub prn: u32,
    pub elevation: Seq<char>,
    pub azimuth: Seq<char>,
    pub snr: Seq<char>,
    pub used: bool,
}

pub struct GsvView {
    pub total_messages: u32,
    pub message_number: u32,
    pub total_sats: u32,
    pub sats: Seq<SatView>,
}

pub struct GsaView {
    pub mode: Seq<char>,
    pub fix_type: Seq<char>,
    pub sat_prns: Seq<u32>,
}

pub enum NmeaView {
    Gga(GgaView),
    Rmc(RmcView),
    Gsv(GsvView),
    Gsa(GsaView),
}

pub open spec fn opt_text(o: Option<String>) -> Option<Seq<char>> {
    match o {
        Some(s) => Some(s@),
        None => None,
    }
}

impl View for Coordinate {
    type V = CoordinateView;

    open spec fn view(&self) -> CoordinateView {
        CoordinateView { degrees: self.degrees@, minutes: self.minutes@, negative: self.negative }
    }
}

pub open spec fn opt_coord(o: Option<Coordinate>) -> Option<CoordinateView> {
    match o {
        Some(c) => Some(c@),
        None => None,
    }
}

impl View for SatelliteInfo {
    type V = SatView;

    open spec fn view(&self) -> SatView {
        SatView {
            prn: self.prn,
            elevation: self.elevation@,
            azimuth: self.azimuth@,
            snr: self.snr@,
            used: self.used,
        }
    }
}

pub open spec fn sat_views(v: Seq<SatelliteInfo>) -> Seq<SatView> {
    v.map_values(|s: SatelliteInfo| s@)
}

impl View for NmeaMessage {
    type V = NmeaView;

    open spec fn view(&self) -> NmeaView {
        match self {
            NmeaMessage::Gga(g) => NmeaView::Gga(
                GgaView {
                    time: g.time@,
                    latitude: opt_coord(g.latitude),
                    longitude: opt_coord(g.longitude),
                    fix_quality: g.fix_quality,
                    satellite_count: g.satellite_count,
                    altitude: opt_text(g.altitude),
                },
            ),
            NmeaMessage::Rmc(r) => NmeaView::Rmc(
                RmcView {
                    time: r.time@,
                    date: r.date@,
                    latitude: opt_coord(r.latitude),
                    longitude: opt_coord(r.longitude),
                    speed_knots: opt_text(r.speed_knots),
                    course: opt_text(r.course),
                    valid: r.valid,
                },
            ),
            NmeaMessage::Gsv(g) => NmeaView::Gsv(
                GsvView {
                    total_messages: g.total_messages,
                    message_number: g.message_number,
                    total_sats: g.total_sats,
                    sats: sat_views(g.sats@),
                },
            ),
            NmeaMessage::Gsa(g) => NmeaView::Gsa(
                GsaView { mode: g.mode@, fix_type: g.fix_type@, sat_prns: g.sat_prns@ },
            ),
        }
    }
}

// ---------------------------------------------------------------------
// Fields
// ---------------------------------------------------------------------

/// Field `i` of a sentence, if it has one.
pub open spec fn field(f: Seq<Seq<char>>, i: int) -> Option<Seq<char>> {
    if 0 <= i < f.len() {
        Some(f[i])
    } else {
        None
    }
}

/// Field `i`, or empty text where there is none.
pub open spec fn field_text(f: Seq<Seq<char>>, i: int) -> Seq<char> {
    match field(f, i) {
        Some(s) => s,
        None => Seq::empty(),
    }
}

/// Field `i` read as a `u32`.
pub open spec fn field_u32(f: Seq<Seq<char>>, i: int) -> Option<nat> {
    match field(f, i) {
        Some(s) => parse_unsigned(s, u32::MAX as nat),
        None => None,
    }
}

pub open spec fn u32_or_zero(o: Option<nat>) -> u32 {
    match o {
        Some(v) => v as u32,
        None => 0,
    }
}

/// A coordinate field split into degrees and minutes: two degree digits when the
/// decimal point stands at most four characters in, three otherwise. A field that is
/// empty, has no point, or is shorter than its degrees gives none.
pub open spec fn coordinate_spec(value: Seq<char>, dir: Seq<char>) -> Option<CoordinateView> {
    if value.len() == 0 {
        None
    } else {
        match find_char(value, '.') {
            None => None,
            Some(dot) => {
                let w: int = if dot <= 4 {
                    2
                } else {
                    3
                };
                if w > value.len() {
                    None
                } else {
                    Some(
                        CoordinateView {
                            degrees: value.take(w),
                            minutes: value.skip(w),
                            negative: dir == seq!['S'] || dir == seq!['W'],
                        },
                    )
                }
            },
        }
    }
}

/// The fix quality that a GGA quality code stands for.
pub open spec fn quality_of(code: Option<nat>) -> FixQuality {
    match code {
        Some(v) => if v == 1 {
            FixQuality::Gps
        } else if v == 2 {
            FixQuality::Dgps
        } else if v == 3 {
            FixQuality::Pps
        } else if v == 4 {
            FixQuality::Rtk
        } else if v == 5 {
            FixQuality::FloatRtk
        } else if v == 6 {
            FixQuality::Estimated
        } else if v == 7 {
            FixQuality::Manual
        } else if v == 8 {
            FixQuality::Simulation
        } else {
            FixQuality::Invalid
        },
        None => FixQuality::Invalid,
    }
}

/// The hemisphere only sets the sign: `S` reads as `N` made negative and `W` as `E`
/// made negative, while `N` and `E` are positive; an empty value reads as nothing;
/// the degrees are the first two characters when the point is at most four
/// characters in, else the first three, and the minutes are the rest.
pub proof fn lemma_coordinate_hemisphere(value: Seq<char>)
    ensures
        coordinate_spec(value, "S"@) == match coordinate_spec(value, "N"@) {
            Some(c) => Some(CoordinateView { negative: true, ..c }),
            None => None,
        },
        coordinate_spec(value, "W"@) == match coordinate_spec(value, "E"@) {
            Some(c) => Some(CoordinateView { negative: true, ..c }),
            None => None,
        },
        coordinate_spec(value, "N"@) matches Some(c) ==> !c.negative,
        coordinate_spec(value, "E"@) matches Some(c) ==> !c.negative,
        value.len() == 0 ==> coordinate_spec(value, "N"@) is None,
        coordinate_spec(value, "N"@) matches Some(c) ==> ({
            let w: int = if find_char(value, '.')->0 <= 4 {
                2
            } else {
                3
            };
            c.degrees == value.take(w) && c.minutes == value.skip(w)
        }),
{
    reveal_strlit("S");
    reveal_strlit("N");
    reveal_strlit("W");
    reveal_strlit("E");
    assert("N"@ != seq!['S'] && "N"@ != seq!['W'] && "E"@ != seq!['S'] && "E"@ != seq!['W']) by {
        assert("N"@[0] == 'N');
        assert("E"@[0] == 'E');
    }
    assert("S"@ =~= seq!['S']);
    assert("W"@ =~= seq!['W']);
}

pub open spec fn coord_at(f: Seq<Seq<char>>, i: int) -> Option<CoordinateView> {
    if f.len() > i + 1 {
        coordinate_spec(f[i], f[i + 1])
    } else {
        None
    }
}

pub open spec fn gga_spec(f: Seq<Seq<char>>) -> GgaView {
    GgaView {
        time: field_text(f, 1),
        latitude: coord_at(f, 2),
        longitude: coord_at(f, 4),
        fix_quality: quality_of(field_u32(f, 6)),
        satellite_count: u32_or_zero(field_u32(f, 7)),
        altitude: field(f, 9),
    }
}

pub open spec fn rmc_spec(f: Seq<Seq<char>>) -> RmcView {
    RmcView {
        time: field_text(f, 1),
        date: field_text(f, 9),
        latitude: coord_at(f, 3),
        longitude: coord_at(f, 5),
        speed_knots: field(f, 7),
        course: field(f, 8),
        valid: field(f, 2) == Some(seq!['A']),
    }
}

/// The satellites listed from field `idx` on, four fields each; a satellite whose
/// PRN does not read as a number is skipped.
pub open spec fn gsv_sats(f: Seq<Seq<char>>, idx: int) -> Seq<SatView>
    decreases f.len() + 4 - idx,
{
    if idx < 0 || idx + 3 >= f.len() {
        Seq::empty()
    } else {
        let rest = gsv_sats(f, idx + 4);
        match parse_unsigned(f[idx], u32::MAX as nat) {
            Some(prn) => seq![
                SatView {
                    prn: prn as u32,
                    elevation: f[idx + 1],
                    azimuth: f[idx + 2],
                    snr: f[idx + 3],
                    used: false,
                },
            ] + rest,
            None => rest,
        }
    }
}

pub open spec fn gsv_spec(f: Seq<Seq<char>>) -> GsvView {
    GsvView {
        total_messages: u32_or_zero(field_u32(f, 1)),
        message_number: u32_or_zero(field_u32(f, 2)),
        total_sats: u32_or_zero(field_u32(f, 3)),
        sats: gsv_sats(f, 4),
    }
}

/// The PRNs in fields `i` to 14 that read as numbers.
pub open spec fn gsa_prns(f: Seq<Seq<char>>, i: int) -> Seq<u32>
    decreases 15 - i,
{
    if i >= 15 {
        Seq::empty()
    } else {
        let rest = gsa_prns(f, i + 1);
        match field_u32(f, i) {
            Some(v) => seq![v as u32] + rest,
            None => rest,
        }
    }
}

proof fn lemma_gsa_prns_from(f: Seq<Seq<char>>, i: int)
    requires
        3 <= i <= 15,
    ensures
        gsa_prns(f, i).len() <= 15 - i,
        forall|k: int|
            i <= k <= 14 && (#[trigger] field_u32(f, k)) is Some ==> gsa_prns(f, i).contains(
                field_u32(f, k)->0 as u32,
            ),
        forall|p: int|
            #![trigger gsa_prns(f, i)[p]]
            0 <= p < gsa_prns(f, i).len() ==> exists|k: int|
                i <= k <= 14 && #[trigger] field_u32(f, k) == Some(gsa_prns(f, i)[p] as nat),
    decreases 15 - i,
{
    if i < 15 {
        lemma_gsa_prns_from(f, i + 1);
        let rest = gsa_prns(f, i + 1);
        let cur = gsa_prns(f, i);
        match field_u32(f, i) {
            Some(v) => {
                assert(cur == seq![v as u32] + rest);
                assert(cur[0] == v as u32);
                assert forall|k: int|
                    i <= k <= 14 && (#[trigger] field_u32(f, k)) is Some implies cur.contains(
                    field_u32(f, k)->0 as u32,
                ) by {
                    if k > i {
                        let q = choose|q: int|
                            0 <= q < rest.len() && rest[q] == field_u32(f, k)->0 as u32;
                        assert(cur[q + 1] == rest[q]);
                    }
                }
                assert forall|p: int| #![trigger cur[p]] 0 <= p < cur.len() implies exists|k: int|
                    i <= k <= 14 && #[trigger] field_u32(f, k) == Some(cur[p] as nat) by {
                    if p == 0 {
                        assert(v <= u32::MAX);
                        assert(field_u32(f, i) == Some(cur[0] as nat));
                    } else {
                        assert(cur[p] == rest[p - 1]);
                    }
                }
            },
            None => {
                assert(cur == rest);
            },
        }
    }
}

/// The slots among fields `i` to 14 that hold a number, in order.
spec fn numeric_slots(f: Seq<Seq<char>>, i: int) -> Seq<int>
    decreases 15 - i,
{
    if i >= 15 {
        Seq::empty()
    } else {
        let rest = numeric_slots(f, i + 1);
        if field_u32(f, i) is Some {
            seq![i] + rest
        } else {
            rest
        }
    }
}

proof fn lemma_gsa_slots(f: Seq<Seq<char>>, i: int)
    requires
        3 <= i <= 15,
    ensures
        ({
            let idx = numeric_slots(f, i);
            let r = gsa_prns(f, i);
            &&& idx.len() == r.len()
            &&& forall|p: int|
                #![trigger idx[p]]
                0 <= p < idx.len() ==> i <= idx[p] <= 14 && field_u32(f, idx[p]) == Some(
                    r[p] as nat,
                )
            &&& forall|p: int, q: int| 0 <= p < q < idx.len() ==> idx[p] < idx[q]
            &&& forall|k: int|
                i <= k <= 14 && (#[trigger] field_u32(f, k)) is Some ==> idx.contains(k)
        }),
    decreases 15 - i,
{
    if i < 15 {
        lemma_gsa_slots(f, i + 1);
        let idx = numeric_slots(f, i);
        let r = gsa_prns(f, i);
        let idx1 = numeric_slots(f, i + 1);
        let r1 = gsa_prns(f, i + 1);
        match field_u32(f, i) {
            Some(v) => {
                assert(idx == seq![i] + idx1);
                assert(r == seq![v as u32] + r1);
                assert(v <= u32::MAX);
                assert forall|p: int|
                    #![trigger idx[p]]
                    0 <= p < idx.len() implies i <= idx[p] <= 14 && field_u32(f, idx[p]) == Some(
                        r[p] as nat,
                    ) by {
                    if p > 0 {
                        assert(idx[p] == idx1[p - 1]);
                        assert(r[p] == r1[p - 1]);
                    }
                }
                assert forall|p: int, q: int| 0 <= p < q < idx.len() implies idx[p] < idx[q] by {
                    assert(idx[q] == idx1[q - 1]);
                    if p > 0 {
                        assert(idx[p] == idx1[p - 1]);
                    } else {
                        assert(i + 1 <= idx1[q - 1]);
                    }
                }
                assert forall|k: int|
                    i <= k <= 14 && (#[trigger] field_u32(f, k)) is Some implies idx.contains(k) by {
                    if k == i {
                        assert(idx[0] == i);
                    } else {
                        let q = choose|q: int| 0 <= q < idx1.len() && idx1[q] == k;
                        assert(idx[q + 1] == idx1[q]);
                    }
                }
            },
            None => {
                assert(idx == idx1);
                assert(r == r1);
            },
        }
    }
}

/// `idx` gives, in increasing order, the PRN slot (among fields 3 to 14) that each
/// of the numbers `r` is read from, and names every slot that holds a number.
pub open spec fn prn_slot_map(f: Seq<Seq<char>>, r: Seq<u32>, idx: Seq<int>) -> bool {
    &&& idx.len() == r.len()
    &&& forall|p: int|
        #![trigger idx[p]]
        0 <= p < idx.len() ==> 3 <= idx[p] <= 14 && field_u32(f, idx[p]) == Some(r[p] as nat)
    &&& forall|p: int, q: int| 0 <= p < q < idx.len() ==> idx[p] < idx[q]
    &&& forall|k: int| 3 <= k <= 14 && (#[trigger] field_u32(f, k)) is Some ==> idx.contains(k)
}

/// The PRNs of a GSA sentence are the numbers in its twelve PRN slots, fields 3 to
/// 14, in slot order: there is one PRN for each slot that holds a number, taken
/// from that slot, and none other.
pub proof fn lemma_gsa_prn_slots(f: Seq<Seq<char>>)
    ensures
        gsa_spec(f).sat_prns.len() <= 12,
        exists|idx: Seq<int>| #[trigger] prn_slot_map(f, gsa_spec(f).sat_prns, idx),
{
    lemma_gsa_prns_from(f, 3);
    lemma_gsa_slots(f, 3);
    assert(prn_slot_map(f, gsa_spec(f).sat_prns, numeric_slots(f, 3)));
}

pub open spec fn gsa_spec(f: Seq<Seq<char>>) -> GsaView {
    GsaView { mode: field_text(f, 1), fix_type: field_text(f, 2), sat_prns: gsa_prns(f, 3) }
}

pub open spec fn is_tag(t: Seq<char>, a: Seq<char>, b: Seq<char>) -> bool {
    t == a || t == b
}

/// What a sentence line reads as: after trimming, a `$`, the fields separated by
/// commas up to the last `*`, and a talker-and-type tag that names GGA, RMC, GSV
/// or GSA from GPS or GNSS. The checksum is not checked.
pub open spec fn parse_nmea_spec(line: Seq<char>) -> Option<NmeaView> {
    let t = trim(line);
    if !(t.len() > 0 && t[0] == '$') {
        None
    } else {
        match rfind_char(t, '*') {
            None => None,
            Some(k) => {
                let f = split_on(t.subrange(1, k), ',');
                let tag = f[0];
                if is_tag(tag, "GPGGA"@, "GNGGA"@) {
                    Some(NmeaView::Gga(gga_spec(f)))
                } else if is_tag(tag, "GPRMC"@, "GNRMC"@) {
                    Some(NmeaView::Rmc(rmc_spec(f)))
                } else if is_tag(tag, "GPGSV"@, "GNGSV"@) {
                    Some(NmeaView::Gsv(gsv_spec(f)))
                } else if is_tag(tag, "GPGSA"@, "GNGSA"@) {
                    Some(NmeaView::Gsa(gsa_spec(f)))
                } else {
                    None
                }
            },
        }
    }
}

proof fn lemma_gsv_sats_agree(f1: Seq<Seq<char>>, f2: Seq<Seq<char>>, idx: int)
    requires
        f1.len() == f2.len(),
        forall|j: int| 1 <= j < f1.len() ==> f1[j] == f2[j],
        idx >= 1,
    ensures
        gsv_sats(f1, idx) == gsv_sats(f2, idx),
    decreases f1.len() + 4 - idx,
{
    if !(idx < 0 || idx + 3 >= f1.len()) {
        lemma_gsv_sats_agree(f1, f2, idx + 4);
        assert(f1[idx] == f2[idx]);
        assert(f1[idx + 1] == f2[idx + 1]);
        assert(f1[idx + 2] == f2[idx + 2]);
        assert(f1[idx + 3] == f2[idx + 3]);
    }
}

proof fn lemma_gsa_prns_agree(f1: Seq<Seq<char>>, f2: Seq<Seq<char>>, i: int)
    requires
        f1.len() == f2.len(),
        forall|j: int| 1 <= j < f1.len() ==> f1[j] == f2[j],
        i >= 1,
    ensures
        gsa_prns(f1, i) == gsa_prns(f2, i),
    decreases 15 - i,
{
    if i < 15 {
        lemma_gsa_prns_agree(f1, f2, i + 1);
        assert(field_u32(f1, i) == field_u32(f2, i));
    }
}

/// With talker `GN` or `GP` in front of the rest of a tag, the tag names the
/// same sentence type.
proof fn lemma_talker_tag(x: Seq<char>, tp: Seq<char>, tn: Seq<char>)
    requires
        tp.len() == 5,
        tn.len() == 5,
        tp[0] == 'G' && tp[1] == 'P',
        tn[0] == 'G' && tn[1] == 'N',
        tp.subrange(2, 5) == tn.subrange(2, 5),
    ensures
        is_tag(seq!['G', 'N'] + x, tp, tn) == is_tag(seq!['G', 'P'] + x, tp, tn),
{
    let a = seq!['G', 'N'] + x;
    let b = seq!['G', 'P'] + x;
    if a == tn {
        assert(x =~= tn.subrange(2, 5));
        assert(b =~= tp);
    }
    if b == tp {
        assert(x =~= tp.subrange(2, 5));
        assert(a =~= tn);
    }
    if a == tp {
        assert(a[1] == 'N');
    }
    if b == tn {
        assert(b[1] == 'P');
    }
}

/// A sentence from a multi-GNSS receiver (talker `GN`) reads exactly as the same
/// sentence from a GPS receiver (talker `GP`), whatever its type and fields: GGA,
/// RMC, GSV and GSA sentences are read alike from both, and any other is read
/// from neither.
pub proof fn lemma_gnss_talker(s: Seq<char>)
    ensures
        parse_nmea_spec(seq!['$', 'G', 'N'] + s) == parse_nmea_spec(seq!['$', 'G', 'P'] + s),
{
    let pn = seq!['$', 'G', 'N'];
    let pp = seq!['$', 'G', 'P'];
    assert(!is_ws('$') && !is_ws('N') && !is_ws('P'));
    assert(pn.last() == 'N' && pp.last() == 'P');
    lemma_trim_prefixed(pn, s);
    lemma_trim_prefixed(pp, s);
    let u = trim_end(s);
    let tn = pn + u;
    let tp = pp + u;
    assert(trim(pn + s) == tn);
    assert(trim(pp + s) == tp);
    assert(tn[0] == '$' && tp[0] == '$');
    assert(forall|j: int| 0 <= j < pn.len() ==> pn[j] != '*');
    assert(forall|j: int| 0 <= j < pp.len() ==> pp[j] != '*');
    lemma_rfind_prefixed(pn, u, '*');
    lemma_rfind_prefixed(pp, u, '*');
    lemma_rfind_char_bound(u, '*');
    match rfind_char(u, '*') {
        None => {},
        Some(k0) => {
            let k = k0 + 3;
            let w = u.subrange(0, k0);
            let gn = seq!['G', 'N'];
            let gp = seq!['G', 'P'];
            assert(tn.subrange(1, k) =~= gn + w);
            assert(tp.subrange(1, k) =~= gp + w);
            assert(forall|j: int| 0 <= j < gn.len() ==> gn[j] != ',');
            assert(forall|j: int| 0 <= j < gp.len() ==> gp[j] != ',');
            lemma_split_prefix(gn, w, ',');
            lemma_split_prefix(gp, w, ',');
            lemma_split_nonempty(w, ',');
            let r = split_on(w, ',');
            let x = r[0];
            let fnn = r.update(0, gn + x);
            let fp = r.update(0, gp + x);
            assert(split_on(tn.subrange(1, k), ',') == fnn);
            assert(split_on(tp.subrange(1, k), ',') == fp);
            assert(fnn[0] == gn + x && fp[0] == gp + x);
            assert forall|j: int| 1 <= j < fnn.len() implies fnn[j] == fp[j] by {}
            lemma_gsv_sats_agree(fnn, fp, 4);
            lemma_gsa_prns_agree(fnn, fp, 3);
            assert(gga_spec(fnn) == gga_spec(fp));
            assert(rmc_spec(fnn) == rmc_spec(fp));
            assert(gsv_spec(fnn) == gsv_spec(fp));
            assert(gsa_spec(fnn) == gsa_spec(fp));
            reveal_strlit("GPGGA");
            reveal_strlit("GNGGA");
            reveal_strlit("GPRMC");
            reveal_strlit("GNRMC");
            reveal_strlit("GPGSV");
            reveal_strlit("GNGSV");
            reveal_strlit("GPGSA");
            reveal_strlit("GNGSA");
            assert("GPGGA"@.subrange(2, 5) =~= "GNGGA"@.subrange(2, 5));
            assert("GPRMC"@.subrange(2, 5) =~= "GNRMC"@.subrange(2, 5));
            assert("GPGSV"@.subrange(2, 5) =~= "GNGSV"@.subrange(2, 5));
            assert("GPGSA"@.subrange(2, 5) =~= "GNGSA"@.subrange(2, 5));
            lemma_talker_tag(x, "GPGGA"@, "GNGGA"@);
            lemma_talker_tag(x, "GPRMC"@, "GNRMC"@);
            lemma_talker_tag(x, "GPGSV"@, "GNGSV"@);
            lemma_talker_tag(x, "GPGSA"@, "GNGSA"@);
        },
    }
}

/// The number of bytes that UTF-8 takes for a character.
pub open spec fn utf8_width(c: char) -> nat {
    if (c as u32) < 0x80 {
        1
    } else if (c as u32) < 0x800 {
        2
    } else if (c as u32) < 0x1_0000 {
        3
    } else {
        4
    }
}

/// The number of bytes that UTF-8 takes for a text.
pub open spec fn byte_len(s: Seq<char>) -> nat
    decreases s.len(),
{
    if s.len() == 0 {
        0
    } else {
        byte_len(s.drop_last()) + utf8_width(s.last())
    }
}

/// Byte `k` of a text's UTF-8 form starts a character (or ends the text).
pub open spec fn byte_boundary(s: Seq<char>, k: nat) -> bool {
    exists|i: int| 0 <= i <= s.len() && #[trigger] byte_len(s.take(i)) == k
}

/// Whether reading a coordinate field cuts its text off inside a character or
/// beyond its end: the degrees are its first two bytes, or three when the
/// decimal point stands more than four bytes in. Such a sentence is one the
/// receiver's parser cannot take.
pub open spec fn coordinate_cut_fails(value: Seq<char>) -> bool {
    value.len() > 0 && match find_char(value, '.') {
        None => false,
        Some(dot) => {
            let w: nat = if byte_len(value.take(dot)) <= 4 {
                2
            } else {
                3
            };
            w > byte_len(value) || !byte_boundary(value, w)
        },
    }
}

pub open spec fn gga_cut_fails(f: Seq<Seq<char>>) -> bool {
    (f.len() > 3 && coordinate_cut_fails(f[2])) || (f.len() > 5 && coordinate_cut_fails(f[4]))
}

pub open spec fn rmc_cut_fails(f: Seq<Seq<char>>) -> bool {
    (f.len() > 4 && coordinate_cut_fails(f[3])) || (f.len() > 6 && coordinate_cut_fails(f[5]))
}

/// Whether a sentence line is a GGA or RMC sentence with a coordinate field
/// that cannot be cut into degrees and minutes.
pub open spec fn nmea_line_fails(line: Seq<char>) -> bool {
    let t = trim(line);
    if !(t.len() > 0 && t[0] == '$') {
        false
    } else {
        match rfind_char(t, '*') {
            None => false,
            Some(k) => {
                let f = split_on(t.subrange(1, k), ',');
                let tag = f[0];
                if is_tag(tag, "GPGGA"@, "GNGGA"@) {
                    gga_cut_fails(f)
                } else if is_tag(tag, "GPRMC"@, "GNRMC"@) {
                    rmc_cut_fails(f)
                } else {
                    false
                }
            },
        }
    }
}

proof fn lemma_byte_len_take_step(s: Seq<char>, i: int)
    requires
        0 <= i < s.len(),
    ensures
        byte_len(s.take(i + 1)) == byte_len(s.take(i)) + utf8_width(s[i]),
{
    assert(s.take(i + 1).drop_last() =~= s.take(i));
}

/// Longer prefixes take more bytes.
proof fn lemma_byte_len_grows(s: Seq<char>, i: int, j: int)
    requires
        0 <= i < j <= s.len(),
    ensures
        byte_len(s.take(i)) < byte_len(s.take(j)),
    decreases j - i,
{
    lemma_byte_len_take_step(s, j - 1);
    if i < j - 1 {
        lemma_byte_len_grows(s, i, j - 1);
    }
}

// ---------------------------------------------------------------------
// Parsing
// ---------------------------------------------------------------------

fn field_string(f: &Vec<Vec<char>>, i: usize) -> (r: String)
    ensures
        r@ == field_text(views(f@), i as int),
{
    if i < f.len() {
        assert(views(f@)[i as int] == f@[i as int]@);
        string_from_chars(f[i].as_slice())
    } else {
        String::new()
    }
}

fn field_opt(f: &Vec<Vec<char>>, i: usize) -> (r: Option<String>)
    ensures
        opt_text(r) == field(views(f@), i as int),
{
    if i < f.len() {
        assert(views(f@)[i as int] == f@[i as int]@);
        Some(string_from_chars(f[i].as_slice()))
    } else {
        None
    }
}

fn field_number(f: &Vec<Vec<char>>, i: usize) -> (r: Option<u32>)
    ensures
        match r {
            Some(v) => field_u32(views(f@), i as int) == Some(v as nat),
            None => field_u32(views(f@), i as int) is None,
        },
{
    if i < f.len() {
        assert(views(f@)[i as int] == f@[i as int]@);
        parse_u32(f[i].as_slice())
    } else {
        None
    }
}

fn or_zero(o: Option<u32>) -> (r: u32)
    ensures
        r == match o {
            Some(v) => v,
            None => 0,
        },
{
    match o {
        Some(v) => v,
        None => 0,
    }
}

fn is_char_text(s: &[char], c: char) -> (r: bool)
    ensures
        r == (s@ == seq![c]),
{
    let ok = s.len() == 1 && s[0] == c;
    proof {
        if ok {
            assert(s@ =~= seq![c]);
        }
    }
    ok
}

/// A coordinate from its value and hemisphere fields.
pub fn parse_coordinate(value: &[char], dir: &[char]) -> (r: Option<Coordinate>)
    requires
        !coordinate_cut_fails(value@),
    ensures
        opt_coord(r) == coordinate_spec(value@, dir@),
{
    if value.len() == 0 {
        return None;
    }
    let dot = match find_char_exec(value, '.') {
        Some(d) => d,
        None => {
            return None;
        },
    };
    let w: usize = if dot <= 4 {
        2
    } else {
        3
    };
    if w > value.len() {
        return None;
    }
    let deg = slice_chars(value, 0, w);
    let min = slice_chars(value, w, value.len());
    assert(deg@ =~= value@.take(w as int));
    assert(min@ =~= value@.skip(w as int));
    let negative = is_char_text(dir, 'S') || is_char_text(dir, 'W');
    Some(
        Coordinate {
            degrees: string_from_chars(deg.as_slice()),
            minutes: string_from_chars(min.as_slice()),
            negative,
        },
    )
}

fn coordinate_at(f: &Vec<Vec<char>>, i: usize) -> (r: Option<Coordinate>)
    requires
        i < 10,
        f@.len() > i + 1 ==> !coordinate_cut_fails(views(f@)[i as int]),
    ensures
        opt_coord(r) == coord_at(views(f@), i as int),
{
    if f.len() > i + 1 {
        assert(views(f@)[i as int] == f@[i as int]@);
        assert(views(f@)[i + 1] == f@[i + 1]@);
        parse_coordinate(f[i].as_slice(), f[i + 1].as_slice())
    } else {
        None
    }
}

fn quality_from(code: Option<u32>) -> (q: FixQuality)
    ensures
        q == quality_of(
            match code {
                Some(v) => Some(v as nat),
                None => None,
            },
        ),
{
    match code {
        Some(0) => FixQuality::Invalid,
        Some(1) => FixQuality::Gps,
        Some(2) => FixQuality::Dgps,
        Some(3) => FixQuality::Pps,
        Some(4) => FixQuality::Rtk,
        Some(5) => FixQuality::FloatRtk,
        Some(6) => FixQuality::Estimated,
        Some(7) => FixQuality::Manual,
        Some(8) => FixQuality::Simulation,
        _ => FixQuality::Invalid,
    }
}

/// The fields of a GGA sentence.
pub fn parse_gga(f: &Vec<Vec<char>>) -> (r: GgaData)
    requires
        !gga_cut_fails(views(f@)),
    ensures
        (NmeaMessage::Gga(r))@ == NmeaView::Gga(gga_spec(views(f@))),
{
    let code = field_number(f, 6);
    GgaData {
        time: field_string(f, 1),
        latitude: coordinate_at(f, 2),
        longitude: coordinate_at(f, 4),
        fix_quality: quality_from(code),
        satellite_count: or_zero(field_number(f, 7)),
        altitude: field_opt(f, 9),
    }
}

/// The fields of an RMC sentence.
pub fn parse_rmc(f: &Vec<Vec<char>>) -> (r: RmcData)
    requires
        !rmc_cut_fails(views(f@)),
    ensures
        (NmeaMessage::Rmc(r))@ == NmeaView::Rmc(rmc_spec(views(f@))),
{
    let valid = if f.len() > 2 {
        assert(views(f@)[2] == f@[2]@);
        is_char_text(f[2].as_slice(), 'A')
    } else {
        false
    };
    RmcData {
        time: field_string(f, 1),
        date: field_string(f, 9),
        latitude: coordinate_at(f, 3),
        longitude: coordinate_at(f, 5),
        speed_knots: field_opt(f, 7),
        course: field_opt(f, 8),
        valid,
    }
}

/// The fields of a GSV sentence.
pub fn parse_gsv(f: &Vec<Vec<char>>) -> (r: GsvData)
    ensures
        (NmeaMessage::Gsv(r))@ == NmeaView::Gsv(gsv_spec(views(f@))),
{
    let ghost fv = views(f@);
    let n = f.len();
    let mut sats: Vec<SatelliteInfo> = Vec::new();
    let mut idx: usize = 4;
    while idx < n && n - idx > 3
        invariant
            n == f@.len(),
            fv == views(f@),
            4 <= idx,
            sat_views(sats@) + gsv_sats(fv, idx as int) == gsv_sats(fv, 4),
        decreases n + 4 - idx,
    {
        assert(fv[idx as int] == f@[idx as int]@);
        assert(fv[idx + 1] == f@[idx + 1]@);
        assert(fv[idx + 2] == f@[idx + 2]@);
        assert(fv[idx + 3] == f@[idx + 3]@);
        let ghost before = sat_views(sats@);
        match parse_u32(f[idx].as_slice()) {
            Some(prn) => {
                let s = SatelliteInfo {
                    prn,
                    elevation: string_from_chars(f[idx + 1].as_slice()),
                    azimuth: string_from_chars(f[idx + 2].as_slice()),
                    snr: string_from_chars(f[idx + 3].as_slice()),
                    used: false,
                };
                sats.push(s);
                assert(sat_views(sats@) =~= before.push(s@));
                assert(sat_views(sats@) + gsv_sats(fv, idx + 4) =~= before + gsv_sats(
                    fv,
                    idx as int,
                ));
            },
            None => {},
        }
        idx = idx + 4;
    }
    assert(gsv_sats(fv, idx as int) =~= Seq::<SatView>::empty());
    assert(sat_views(sats@) =~= sat_views(sats@) + gsv_sats(fv, idx as int));
    GsvData {
        total_messages: or_zero(field_number(f, 1)),
        message_number: or_zero(field_number(f, 2)),
        total_sats: or_zero(field_number(f, 3)),
        sats,
    }
}

/// The fields of a GSA sentence.
pub fn parse_gsa(f: &Vec<Vec<char>>) -> (r: GsaData)
    ensures
        (NmeaMessage::Gsa(r))@ == NmeaView::Gsa(gsa_spec(views(f@))),
        r.sat_prns@.len() <= 12,
{
    let ghost fv = views(f@);
    let mut prns: Vec<u32> = Vec::new();
    let mut i: usize = 3;
    while i < 15
        invariant
            3 <= i <= 15,
            fv == views(f@),
            prns@ + gsa_prns(fv, i as int) == gsa_prns(fv, 3),
            prns@.len() <= i - 3,
        decreases 15 - i,
    {
        let ghost before = prns@;
        match field_number(f, i) {
            Some(v) => {
                prns.push(v);
                assert(prns@ + gsa_prns(fv, i + 1) =~= before + gsa_prns(fv, i as int));
            },
            None => {},
        }
        i = i + 1;
    }
    assert(gsa_prns(fv, 15) =~= Seq::<u32>::empty());
    assert(prns@ =~= prns@ + gsa_prns(fv, 15));
    GsaData { mode: field_string(f, 1), fix_type: field_string(f, 2), sat_prns: prns }
}

fn tag_is(t: &[char], a: &str, b: &str) -> (r: bool)
    ensures
        r == is_tag(t@, a@, b@),
{
    let av = chars_of(a);
    let bv = chars_of(b);
    chars_eq(t, av.as_slice()) || chars_eq(t, bv.as_slice())
}

fn utf8_width_exec(c: char) -> (r: usize)
    ensures
        r == utf8_width(c),
{
    let v = c as u32;
    if v < 0x80 {
        1
    } else if v < 0x800 {
        2
    } else if v < 0x1_0000 {
        3
    } else {
        4
    }
}

/// Whether a coordinate field cannot be cut into degrees and minutes.
pub fn coordinate_cut_fails_exec(value: &[char]) -> (r: bool)
    ensures
        r == coordinate_cut_fails(value@),
{
    if value.len() == 0 {
        return false;
    }
    let dot = match find_char_exec(value, '.') {
        Some(d) => d,
        None => {
            return false;
        },
    };
    // The bytes before the point, counted as far as five.
    let mut before: usize = 0;
    let mut i: usize = 0;
    assert(value@.take(0) =~= Seq::<char>::empty());
    while i < dot && before <= 4
        invariant
            i <= dot < value@.len(),
            before == byte_len(value@.take(i as int)),
            before <= 8,
        decreases dot - i,
    {
        proof {
            lemma_byte_len_take_step(value@, i as int);
        }
        before = before + utf8_width_exec(value[i]);
        i = i + 1;
    }
    proof {
        if i < dot {
            lemma_byte_len_grows(value@, i as int, dot as int);
        }
    }
    let w: usize = if before <= 4 {
        2
    } else {
        3
    };
    assert(w == (if byte_len(value@.take(dot as int)) <= 4 {
        2nat
    } else {
        3nat
    }));
    // Walk to byte `w`.
    let mut acc: usize = 0;
    let mut k: usize = 0;
    while k < value.len() && acc < w
        invariant
            k <= value@.len(),
            acc == byte_len(value@.take(k as int)),
            w == 2 || w == 3,
            acc <= w + 3,
            forall|j: int| 0 <= j < k ==> byte_len(value@.take(j)) < w,
        decreases value@.len() - k,
    {
        proof {
            lemma_byte_len_take_step(value@, k as int);
        }
        acc = acc + utf8_width_exec(value[k]);
        k = k + 1;
    }
    proof {
        assert(value@.take(value@.len() as int) =~= value@);
        if acc == w {
            assert(byte_len(value@.take(k as int)) == w);
            if k < value@.len() {
                lemma_byte_len_grows(value@, k as int, value@.len() as int);
            }
        } else if acc > w {
            assert forall|j: int| 0 <= j <= value@.len() implies #[trigger] byte_len(value@.take(j))
                != w by {
                if j > k {
                    lemma_byte_len_grows(value@, k as int, j);
                }
            }
        } else {
            assert(k == value@.len());
            assert forall|j: int| 0 <= j <= value@.len() implies #[trigger] byte_len(value@.take(j))
                != w by {
                if j < k {
                    lemma_byte_len_grows(value@, j, k as int);
                }
            }
        }
    }
    acc != w
}

fn cut_fails_at(f: &Vec<Vec<char>>, i: usize) -> (r: bool)
    ensures
        r == (f@.len() > i + 1 && coordinate_cut_fails(views(f@)[i as int])),
{
    if i < f.len() && f.len() - i > 1 {
        assert(views(f@)[i as int] == f@[i as int]@);
        coordinate_cut_fails_exec(f[i].as_slice())
    } else {
        false
    }
}

/// Whether a sentence line has a coordinate field that cannot be cut into
/// degrees and minutes (the receiver's parser cannot take such a line).
pub fn nmea_line_fails_exec(line: &str) -> (r: bool)
    ensures
        r == nmea_line_fails(line@),
{
    let c = chars_of(line);
    let t = trim_exec(c.as_slice());
    if !(t.len() > 0 && t[0] == '$') {
        return false;
    }
    let k = match rfind_char_exec(t.as_slice(), '*') {
        Some(k) => k,
        None => {
            return false;
        },
    };
    let body = slice_chars(t.as_slice(), 1, k);
    let f = split_exec(body.as_slice(), ',');
    proof {
        crate::text::lemma_split_nonempty(body@, ',');
    }
    assert(views(f@)[0] == f@[0]@);
    let tag = f[0].as_slice();
    if tag_is(tag, "GPGGA", "GNGGA") {
        cut_fails_at(&f, 2) || cut_fails_at(&f, 4)
    } else if tag_is(tag, "GPRMC", "GNRMC") {
        cut_fails_at(&f, 3) || cut_fails_at(&f, 5)
    } else {
        false
    }
}

/// One NMEA sentence, if it is a GGA, RMC, GSV or GSA sentence.
pub fn parse_nmea_line(line: &str) -> (r: Option<NmeaMessage>)
    requires
        !nmea_line_fails(line@),
    ensures
        match r {
            Some(m) => parse_nmea_spec(line@) == Some(m@),
            None => parse_nmea_spec(line@) is None,
        },
{
    let c = chars_of(line);
    let t = trim_exec(c.as_slice());
    if !(t.len() > 0 && t[0] == '$') {
        return None;
    }
    let k = match rfind_char_exec(t.as_slice(), '*') {
        Some(k) => k,
        None => {
            return None;
        },
    };
    let body = slice_chars(t.as_slice(), 1, k);
    let f = split_exec(body.as_slice(), ',');
    proof {
        crate::text::lemma_split_nonempty(body@, ',');
    }
    assert(views(f@)[0] == f@[0]@);
    let tag = f[0].as_slice();
    if tag_is(tag, "GPGGA", "GNGGA") {
        Some(NmeaMessage::Gga(parse_gga(&f)))
    } else if tag_is(tag, "GPRMC", "GNRMC") {
        Some(NmeaMessage::Rmc(parse_rmc(&f)))
    } else if tag_is(tag, "GPGSV", "GNGSV") {
        Some(NmeaMessage::Gsv(parse_gsv(&f)))
    } else if tag_is(tag, "GPGSA", "GNGSA") {
        Some(NmeaMessage::Gsa(parse_gsa(&f)))
    } else {
        None
    }
}

// ---------------------------------------------------------------------
// Receiver status
// ---------------------------------------------------------------------

/// A position fix gathered from GGA and RMC sentences.
#[derive(Clone, Debug)]
pub struct GpsFix {
    pub latitude: Coordinate,
    pub longitude: Coordinate,
    pub altitude: Option<String>,
    pub speed_knots: Option<String>,
    pub course: Option<String>,
    pub fix_quality: FixQuality,
    pub satellite_count: u32,
}

pub struct FixView {
    pub latitude: CoordinateView,
    pub longitude: CoordinateView,
    pub altitude: Option<Seq<char>>,
    pub speed_knots: Option<Seq<char>>,
    pub course: Option<Seq<char>>,
    pub fix_quality: FixQuality,
    pub satellite_count: u32,
}

impl View for GpsFix {
    type V = FixView;

    open spec fn view(&self) -> FixView {
        FixView {
            latitude: self.latitude@,
            longitude: self.longitude@,
            altitude: opt_text(self.altitude),
            speed_knots: opt_text(self.speed_knots),
            course: opt_text(self.course),
            fix_quality: self.fix_quality,
            satellite_count: self.satellite_count,
        }
    }
}

pub open spec fn opt_fix(o: Option<GpsFix>) -> Option<FixView> {
    match o {
        Some(f) => Some(f@),
        None => None,
    }
}

/// The receiver's status as read so far from its sentences.
pub struct GpsTracker {
    pub fix: Option<GpsFix>,
    pub satellites_visible: u32,
    pub satellites_used: u32,
}

pub struct TrackerView {
    pub fix: Option<FixView>,
    pub satellites_visible: u32,
    pub satellites_used: u32,
}

impl View for GpsTracker {
    type V = TrackerView;

    open spec fn view(&self) -> TrackerView {
        TrackerView {
            fix: opt_fix(self.fix),
            satellites_visible: self.satellites_visible,
            satellites_used: self.satellites_used,
        }
    }
}

/// The status before any sentence was read.
pub open spec fn tracker_start() -> TrackerView {
    TrackerView { fix: None, satellites_visible: 0, satellites_used: 0 }
}

/// The status after one more sentence (see `GpsTracker::apply`).
pub open spec fn tracker_step(t: TrackerView, m: NmeaView) -> TrackerView {
    match m {
        NmeaView::Gga(g) => if g.fix_quality != FixQuality::Invalid {
            TrackerView {
                satellites_used: g.satellite_count,
                fix: match (g.latitude, g.longitude) {
                    (Some(lat), Some(lon)) => Some(
                        FixView {
                            latitude: lat,
                            longitude: lon,
                            altitude: g.altitude,
                            speed_knots: None,
                            course: None,
                            fix_quality: g.fix_quality,
                            satellite_count: g.satellite_count,
                        },
                    ),
                    _ => t.fix,
                },
                ..t
            }
        } else {
            t
        },
        NmeaView::Rmc(r) => match (r.valid, r.latitude, r.longitude) {
            (true, Some(lat), Some(lon)) => match t.fix {
                None => TrackerView {
                    fix: Some(
                        FixView {
                            latitude: lat,
                            longitude: lon,
                            altitude: None,
                            speed_knots: r.speed_knots,
                            course: r.course,
                            fix_quality: FixQuality::Invalid,
                            satellite_count: 0,
                        },
                    ),
                    ..t
                },
                Some(f) => TrackerView {
                    fix: Some(FixView { speed_knots: r.speed_knots, course: r.course, ..f }),
                    ..t
                },
            },
            _ => t,
        },
        NmeaView::Gsv(g) => TrackerView { satellites_visible: g.total_sats, ..t },
        NmeaView::Gsa(g) => TrackerView { satellites_used: g.sat_prns.len() as u32, ..t },
    }
}

/// The status after reading the sentences `msgs` in order.
pub open spec fn tracker_after(msgs: Seq<NmeaView>) -> TrackerView
    decreases msgs.len(),
{
    if msgs.len() == 0 {
        tracker_start()
    } else {
        tracker_step(tracker_after(msgs.drop_last()), msgs.last())
    }
}

/// Whether a sentence records a position: a GGA sentence with a valid fix and
/// both coordinates, or a valid RMC sentence with both coordinates.
pub open spec fn records_fix(m: NmeaView) -> bool {
    match m {
        NmeaView::Gga(g) => g.fix_quality != FixQuality::Invalid && g.latitude is Some
            && g.longitude is Some,
        NmeaView::Rmc(r) => r.valid && r.latitude is Some && r.longitude is Some,
        _ => false,
    }
}

/// The count of satellites in view that a sentence reports: a GSV sentence's total.
pub open spec fn visible_report(m: NmeaView) -> Option<u32> {
    match m {
        NmeaView::Gsv(g) => Some(g.total_sats),
        _ => None,
    }
}

/// The count of satellites used that a sentence reports: that of a GGA sentence
/// with a valid fix, or the number of PRNs of a GSA sentence.
pub open spec fn used_report(m: NmeaView) -> Option<u32> {
    match m {
        NmeaView::Gga(g) => if g.fix_quality != FixQuality::Invalid {
            Some(g.satellite_count)
        } else {
            None
        },
        NmeaView::Gsa(g) => Some(g.sat_prns.len() as u32),
        _ => None,
    }
}

/// `v` is the last value that `f` reports over `s`, or 0 when it reports none.
pub open spec fn last_report(s: Seq<NmeaView>, f: spec_fn(NmeaView) -> Option<u32>, v: u32) -> bool {
    ||| exists|i: int|
        0 <= i < s.len() && #[trigger] f(s[i]) == Some(v) && (forall|j: int|
            i < j < s.len() ==> (#[trigger] f(s[j])) is None)
    ||| v == 0 && forall|j: int| 0 <= j < s.len() ==> (#[trigger] f(s[j])) is None
}

proof fn lemma_last_report_push(
    s: Seq<NmeaView>,
    f: spec_fn(NmeaView) -> Option<u32>,
    prev: u32,
    m: NmeaView,
    v: u32,
)
    requires
        last_report(s, f, prev),
        v == match f(m) {
            Some(x) => x,
            None => prev,
        },
    ensures
        last_report(s.push(m), f, v),
{
    let t = s.push(m);
    assert(t[s.len() as int] == m);
    assert forall|j: int| 0 <= j < s.len() implies t[j] == s[j] by {}
    if f(m) is Some {
        assert(f(t[s.len() as int]) == Some(v));
    } else if exists|i: int|
        0 <= i < s.len() && #[trigger] f(s[i]) == Some(prev) && (forall|j: int|
            i < j < s.len() ==> (#[trigger] f(s[j])) is None) {
        let i = choose|i: int|
            0 <= i < s.len() && #[trigger] f(s[i]) == Some(prev) && (forall|j: int|
                i < j < s.len() ==> (#[trigger] f(s[j])) is None);
        assert(f(t[i]) == Some(v));
        assert forall|j: int| i < j < t.len() implies (#[trigger] f(t[j])) is None by {
            if j < s.len() {
                assert(f(s[j]) is None);
            }
        }
    } else {
        assert forall|j: int| 0 <= j < t.len() implies (#[trigger] f(t[j])) is None by {
            if j < s.len() {
                assert(f(s[j]) is None);
            }
        }
    }
}

/// Over any sequence of sentences read from the start: a fix is held exactly when
/// some sentence recorded a position; the count of satellites in view is that of
/// the last GSV sentence (0 without one); the count of satellites used is that of
/// the last GGA sentence with a valid fix or GSA sentence (0 without one).
pub proof fn lemma_tracker_after(msgs: Seq<NmeaView>)
    ensures
        tracker_after(msgs).fix is Some <==> exists|i: int|
            0 <= i < msgs.len() && #[trigger] records_fix(msgs[i]),
        last_report(msgs, |m: NmeaView| visible_report(m), tracker_after(msgs).satellites_visible),
        last_report(msgs, |m: NmeaView| used_report(m), tracker_after(msgs).satellites_used),
    decreases msgs.len(),
{
    let fv = |m: NmeaView| visible_report(m);
    let fu = |m: NmeaView| used_report(m);
    if msgs.len() == 0 {
    } else {
        let p = msgs.drop_last();
        let m = msgs.last();
        lemma_tracker_after(p);
        assert(msgs =~= p.push(m));
        let before = tracker_after(p);
        let after = tracker_after(msgs);
        assert(after == tracker_step(before, m));
        lemma_last_report_push(p, fv, before.satellites_visible, m, after.satellites_visible);
        lemma_last_report_push(p, fu, before.satellites_used, m, after.satellites_used);
        assert(after.fix is Some <==> (before.fix is Some || records_fix(m)));
        if after.fix is Some {
            if records_fix(m) {
                assert(records_fix(msgs[msgs.len() - 1]));
            } else {
                let i = choose|i: int| 0 <= i < p.len() && #[trigger] records_fix(p[i]);
                assert(msgs[i] == p[i]);
            }
        } else {
            assert forall|i: int| 0 <= i < msgs.len() implies !#[trigger] records_fix(msgs[i]) by {
                if i < p.len() {
                    assert(msgs[i] == p[i]);
                }
            }
        }
    }
}

fn copy_text(o: &Option<String>) -> (r: Option<String>)
    ensures
        opt_text(r) == opt_text(*o),
{
    match o {
        Some(s) => Some(s.clone()),
        None => None,
    }
}

fn copy_coordinate(c: &Coordinate) -> (r: Coordinate)
    ensures
        r@ == c@,
{
    Coordinate { degrees: c.degrees.clone(), minutes: c.minutes.clone(), negative: c.negative }
}

impl GpsTracker {
    pub fn new() -> (r: Self)
        ensures
            r.fix is None,
            r.satellites_visible == 0,
            r.satellites_used == 0,
            r@ == tracker_start(),
    {
        GpsTracker { fix: None, satellites_visible: 0, satellites_used: 0 }
    }

    /// Takes one sentence into account; the caller has dropped any coordinate,
    /// altitude, speed or course whose text is not a number. Returns whether a new
    /// fix was recorded (the caller stamps it with the time).
    ///
    /// A GGA sentence with a valid fix quality sets the count of satellites used and,
    /// with both coordinates, records a new fix. A valid RMC sentence with both
    /// coordinates records a fix when there is none, and otherwise updates the fix's
    /// speed and course. A GSV sentence sets the count of satellites in view, and a GSA
    /// sentence the count of satellites used.
    pub fn apply(&mut self, msg: &NmeaMessage) -> (fresh: bool)
        ensures
            final(self)@ == tracker_step(old(self)@, msg@),
            match msg {
                NmeaMessage::Gga(g) => {
                    &&& final(self).satellites_visible == old(self).satellites_visible
                    &&& if g.fix_quality != FixQuality::Invalid {
                        &&& final(self).satellites_used == g.satellite_count
                        &&& if g.latitude is Some && g.longitude is Some {
                            &&& fresh
                            &&& opt_fix(final(self).fix) == Some(
                                FixView {
                                    latitude: g.latitude->0@,
                                    longitude: g.longitude->0@,
                                    altitude: opt_text(g.altitude),
                                    speed_knots: None,
                                    course: None,
                                    fix_quality: g.fix_quality,
                                    satellite_count: g.satellite_count,
                                },
                            )
                        } else {
                            !fresh && opt_fix(final(self).fix) == opt_fix(old(self).fix)
                        }
                    } else {
                        &&& !fresh
                        &&& final(self).satellites_used == old(self).satellites_used
                        &&& opt_fix(final(self).fix) == opt_fix(old(self).fix)
                    }
                },
                NmeaMessage::Rmc(r) => {
                    &&& final(self).satellites_visible == old(self).satellites_visible
                    &&& final(self).satellites_used == old(self).satellites_used
                    &&& if r.valid && r.latitude is Some && r.longitude is Some {
                        match old(self).fix {
                            None => fresh && opt_fix(final(self).fix) == Some(
                                FixView {
                                    latitude: r.latitude->0@,
                                    longitude: r.longitude->0@,
                                    altitude: None,
                                    speed_knots: opt_text(r.speed_knots),
                                    course: opt_text(r.course),
                                    fix_quality: FixQuality::Invalid,
                                    satellite_count: 0,
                                },
                            ),
                            Some(f) => !fresh && opt_fix(final(self).fix) == Some(
                                FixView {
                                    speed_knots: opt_text(r.speed_knots),
                                    course: opt_text(r.course),
                                    ..f@
                                },
                            ),
                        }
                    } else {
                        !fresh && opt_fix(final(self).fix) == opt_fix(old(self).fix)
                    }
                },
                NmeaMessage::Gsv(g) => {
                    &&& !fresh
                    &&& final(self).satellites_visible == g.total_sats
                    &&& final(self).satellites_used == old(self).satellites_used
                    &&& opt_fix(final(self).fix) == opt_fix(old(self).fix)
                },
                NmeaMessage::Gsa(g) => {
                    &&& !fresh
                    &&& final(self).satellites_used == g.sat_prns@.len() as u32
                    &&& final(self).satellites_visible == old(self).satellites_visible
                    &&& opt_fix(final(self).fix) == opt_fix(old(self).fix)
                },
            },
    {
        match msg {
            NmeaMessage::Gga(g) => {
                if g.fix_quality != FixQuality::Invalid {
                    self.satellites_used = g.satellite_count;
                    match (&g.latitude, &g.longitude) {
                        (Some(lat), Some(lon)) => {
                            self.fix = Some(
                                GpsFix {
                                    latitude: copy_coordinate(lat),
                                    longitude: copy_coordinate(lon),
                                    altitude: copy_text(&g.altitude),
                                    speed_knots: None,
                                    course: None,
                                    fix_quality: g.fix_quality,
                                    satellite_count: g.satellite_count,
                                },
                            );
                            return true;
                        },
                        _ => {},
                    }
                }
                false
            },
            NmeaMessage::Rmc(r) => {
                if r.valid {
                    match (&r.latitude, &r.longitude) {
                        (Some(lat), Some(lon)) => {
                            match &mut self.fix {
                                None => {
                                    self.fix = Some(
                                        GpsFix {
                                            latitude: copy_coordinate(lat),
                                            longitude: copy_coordinate(lon),
                                            altitude: None,
                                            speed_knots: copy_text(&r.speed_knots),
                                            course: copy_text(&r.course),
                                            fix_quality: FixQuality::Invalid,
                                            satellite_count: 0,
                                        },
                                    );
                                    return true;
                                },
                                Some(f) => {
                                    f.speed_knots = copy_text(&r.speed_knots);
                                    f.course = copy_text(&r.course);
                                },
                            }
                        },
                        _ => {},
                    }
                }
                false
            },
            NmeaMessage::Gsv(g) => {
                self.satellites_visible = g.total_sats;
                false
            },
            NmeaMessage::Gsa(g) => {
                self.satellites_used = g.sat_prns.len() as u32;
                false
            },
        }
    }
}

} // verus!
