//! Frame analysis for motion and tamper detection: grey-scale downscaling of RGB
//! frames, the difference between two frames, the brightness of a frame, and the
//! two detectors with their cool-down rules.
use vstd::prelude::*;
use vstd::arithmetic::div_mod::{
    lemma_fundamental_div_mod, lemma_fundamental_div_mod_converse_div,
    lemma_fundamental_div_mod_converse_mod, lemma_multiply_divide_lt,
};
use vstd::arithmetic::mul::{lemma_mul_inequality, lemma_mul_strict_inequality};
use crate::types::TamperKind;
use std::collections::VecDeque;

verus! {

/// The integer square root: the largest `r` with `r * r <= n`.
pub open spec fn isqrt(n: nat) -> nat
    decreases n,
{
    if n == 0 {
        0
    } else {
        let r = isqrt((n - 1) as nat);
        if (r + 1) * (r + 1) <= n {
            r + 1
        } else {
            r
        }
    }
}

pub proof fn lemma_isqrt_bounds(n: nat)
    ensures
        isqrt(n) * isqrt(n) <= n,
        n < (isqrt(n) + 1) * (isqrt(n) + 1),
    decreases n,
{
    if n > 0 {
        lemma_isqrt_bounds((n - 1) as nat);
        let r = isqrt((n - 1) as nat);
        let s = isqrt(n);
        if (r + 1) * (r + 1) <= n {
            assert(s == r + 1);
            assert(s * s <= n);
            assert(n < (s + 1) * (s + 1)) by (nonlinear_arith)
                requires
                    n - 1 < (r + 1) * (r + 1),
                    s == r + 1,
            ;
        } else {
            assert(s == r);
            assert(s * s <= n);
        }
    } else {
        assert(isqrt(n) == 0);
        assert(isqrt(n) * isqrt(n) == 0) by (nonlinear_arith)
            requires
                isqrt(n) == 0,
        ;
        assert((isqrt(n) + 1) * (isqrt(n) + 1) == 1) by (nonlinear_arith)
            requires
                isqrt(n) == 0,
        ;
    }
}

/// `isqrt(n)` is the only number whose square is at most `n` while the square
/// of its successor is above `n`.
pub proof fn lemma_isqrt_unique(n: nat, r: nat)
    requires
        r * r <= n,
        n < (r + 1) * (r + 1),
    ensures
        r == isqrt(n),
{
    lemma_isqrt_bounds(n);
    let s = isqrt(n);
    if r < s {
        assert((r + 1) * (r + 1) <= s * s) by (nonlinear_arith)
            requires
                r + 1 <= s,
        ;
    } else if r > s {
        assert((s + 1) * (s + 1) <= r * r) by (nonlinear_arith)
            requires
                s + 1 <= r,
        ;
    }
}

/// The integer square root of `n`.
pub fn isqrt_exec(n: u64) -> (r: u64)
    ensures
        r == isqrt(n as nat),
        r < 0x1_0000_0000,
{
    let mut lo: u64 = 0;
    let mut hi: u64 = 0x1_0000_0000;
    assert(n < hi * hi);
    while hi - lo > 1
        invariant
            lo < hi <= 0x1_0000_0000,
            lo * lo <= n,
            n < hi * hi,
        decreases hi - lo,
    {
        let mid = lo + (hi - lo) / 2;
        assert((mid as u128) * (mid as u128) < 0x1_0000_0000_0000_0000) by (nonlinear_arith)
            requires
                mid < 0x1_0000_0000,
        ;
        let sq: u128 = (mid as u128) * (mid as u128);
        if sq <= n as u128 {
            lo = mid;
        } else {
            hi = mid;
        }
    }
    proof {
        lemma_isqrt_unique(n as nat, lo as nat);
    }
    lo
}

/// The grey value that the downscaled frame holds at column `x`, row `y`: the
/// source frame is read as `w` by `h` RGB pixels, `w` being the integer square
/// root of the pixel count and `h` the pixel count divided by `w`; the pixel
/// sampled is the one at the proportional position, and its grey value is the
/// mean of its three channels (0 where the frame holds no such pixel).
pub open spec fn gray_pixel(frame: Seq<u8>, tw: nat, th: nat, y: nat, x: nat) -> u8 {
    let p = frame.len() / 3;
    let sw = isqrt(p);
    if p == 0 || sw == 0 {
        0
    } else {
        let sh = p / sw;
        let sx = (x * sw) / tw;
        let sy = (y * sh) / th;
        let idx = (sy * sw + sx) * 3;
        if idx + 2 < frame.len() {
            ((frame[idx as int] + frame[idx + 1int] + frame[idx + 2int]) / 3) as u8
        } else {
            0
        }
    }
}

/// The downscaled grey frame, row by row.
pub open spec fn grayscale_spec(frame: Seq<u8>, tw: nat, th: nat) -> Seq<u8> {
    Seq::new(tw * th, |i: int| gray_pixel(frame, tw, th, (i / tw as int) as nat, (i % tw as int) as nat))
}

/// The source dimensions that the downscaling reads a frame of `p` pixels as.
pub open spec fn source_width(len: nat) -> nat {
    isqrt(len / 3)
}

pub open spec fn source_height(len: nat) -> nat {
    if source_width(len) == 0 {
        0
    } else {
        (len / 3) / source_width(len)
    }
}

proof fn lemma_sample_in_frame(x: int, y: int, tw: int, th: int, sw: int, sh: int, p: int)
    requires
        0 <= x < tw,
        0 <= y < th,
        sw > 0,
        p >= 0,
        sh == p / sw,
    ensures
        0 <= (x * sw) / tw < sw,
        0 <= (y * sh) / th,
        sh > 0 ==> (y * sh) / th < sh,
        sh > 0 ==> ((y * sh) / th) * sw + (x * sw) / tw < p,
{
    lemma_mul_strict_inequality(x, tw, sw);
    assert(tw * sw == sw * tw) by (nonlinear_arith);
    lemma_multiply_divide_lt(x * sw, tw, sw);
    assert(0 <= x * sw) by (nonlinear_arith)
        requires
            0 <= x,
            sw > 0,
    ;
    assert(0 <= y * sh) by (nonlinear_arith)
        requires
            0 <= y,
            sh >= 0,
    ;
    lemma_fundamental_div_mod(p, sw);
    if sh > 0 {
        lemma_mul_strict_inequality(y, th, sh);
        assert(th * sh == sh * th) by (nonlinear_arith);
        lemma_multiply_divide_lt(y * sh, th, sh);
        let sy = (y * sh) / th;
        let sx = (x * sw) / tw;
        lemma_mul_inequality(sy, sh - 1, sw);
        assert((sh - 1) * sw == sw * sh - sw) by (nonlinear_arith);
        assert(sy * sw + sx < p);
    }
}

/// A frame of RGB bytes turned into a `target_w` by `target_h` grey frame.
pub fn to_grayscale_downscaled(frame: &[u8], target_w: u32, target_h: u32) -> (r: Vec<u8>)
    requires
        target_w * target_h <= u32::MAX,
        frame@.len() / 3 <= u32::MAX,
        target_w > 0 ==> (target_w - 1) * source_width(frame@.len()) <= u32::MAX,
        target_h > 0 ==> (target_h - 1) * source_height(frame@.len()) <= u32::MAX,
    ensures
        r@ == grayscale_spec(frame@, target_w as nat, target_h as nat),
{
    let n = frame.len();
    let p = n / 3;
    let sw: u32 = if p == 0 {
        0
    } else {
        isqrt_exec(p as u64) as u32
    };
    let sh: u32 = if sw == 0 {
        0
    } else {
        (p / (sw as usize)) as u32
    };
    proof {
        lemma_isqrt_bounds(p as nat);
        if sw > 0 {
            let pi = p as int;
            let swi = sw as int;
            let shi = sh as int;
            assert(swi * swi <= pi);
            lemma_fundamental_div_mod(pi, swi);
            assert(shi * swi <= pi) by (nonlinear_arith)
                requires
                    shi == pi / swi,
                    swi > 0,
                    pi == swi * (pi / swi) + pi % swi,
                    pi % swi >= 0,
            ;
            assert(shi >= swi) by (nonlinear_arith)
                requires
                    swi * swi <= pi,
                    shi == pi / swi,
                    swi > 0,
                    pi == swi * (pi / swi) + pi % swi,
                    pi % swi < swi,
            ;
        }
        assert(sw == source_width(n as nat) || p == 0);
        assert(p == 0 ==> isqrt(0) == 0);
    }
    let ghost spec_out = grayscale_spec(frame@, target_w as nat, target_h as nat);
    let mut out: Vec<u8> = Vec::new();
    let mut y: u32 = 0;
    while y < target_h
        invariant
            y <= target_h,
            n == frame@.len(),
            p == n / 3,
            sw == source_width(n as nat),
            sh == source_height(n as nat),
            sw > 0 ==> sh > 0,
            sw > 0 ==> sh * sw <= p,
            p <= u32::MAX,
            target_w * target_h <= u32::MAX,
            target_w > 0 ==> (target_w - 1) * sw <= u32::MAX,
            target_h > 0 ==> (target_h - 1) * sh <= u32::MAX,
            out@.len() == y * target_w,
            spec_out == grayscale_spec(frame@, target_w as nat, target_h as nat),
            forall|i: int| 0 <= i < out@.len() ==> out@[i] == spec_out[i],
        decreases target_h - y,
    {
        let mut x: u32 = 0;
        assert(y * target_w + target_w <= target_w * target_h) by (nonlinear_arith)
            requires
                y < target_h,
        ;
        while x < target_w
            invariant
                x <= target_w,
                y < target_h,
                n == frame@.len(),
                p == n / 3,
                sw == source_width(n as nat),
                sh == source_height(n as nat),
                sw > 0 ==> sh > 0,
                sw > 0 ==> sh * sw <= p,
                p <= u32::MAX,
                target_w * target_h <= u32::MAX,
                target_w > 0 ==> (target_w - 1) * sw <= u32::MAX,
                target_h > 0 ==> (target_h - 1) * sh <= u32::MAX,
                y * target_w + target_w <= target_w * target_h,
                out@.len() == y * target_w + x,
                spec_out == grayscale_spec(frame@, target_w as nat, target_h as nat),
                forall|i: int| 0 <= i < out@.len() ==> out@[i] == spec_out[i],
            decreases target_w - x,
        {
            let v: u8 = if sw == 0 {
                0
            } else {
                proof {
                    lemma_sample_in_frame(
                        x as int,
                        y as int,
                        target_w as int,
                        target_h as int,
                        sw as int,
                        sh as int,
                        p as int,
                    );
                    lemma_mul_inequality(x as int, (target_w - 1) as int, sw as int);
                    lemma_mul_inequality(y as int, (target_h - 1) as int, sh as int);
                }
                let sx = (x * sw) / target_w;
                let sy = (y * sh) / target_h;
                proof {
                    assert(sy * sw + sx < p);
                    assert(sy * sw <= p) by (nonlinear_arith)
                        requires
                            sy * sw + sx < p,
                            sx >= 0,
                    ;
                }
                let idx = ((sy * sw + sx) as usize) * 3;
                if idx + 2 < n {
                    ((frame[idx] as u16 + frame[idx + 1] as u16 + frame[idx + 2] as u16) / 3) as u8
                } else {
                    0
                }
            };
            proof {
                let i = y * target_w + x;
                lemma_fundamental_div_mod_converse_div(i as int, target_w as int, y as int, x as int);
                lemma_fundamental_div_mod_converse_mod(i as int, target_w as int, y as int, x as int);
                assert(i < target_w * target_h);
                assert(spec_out[i as int] == gray_pixel(
                    frame@,
                    target_w as nat,
                    target_h as nat,
                    y as nat,
                    x as nat,
                ));
            }
            out.push(v);
            x = x + 1;
        }
        assert(out@.len() == (y + 1) * target_w) by (nonlinear_arith)
            requires
                out@.len() == y * target_w + target_w,
        ;
        y = y + 1;
    }
    proof {
        assert(out@.len() == target_w * target_h) by (nonlinear_arith)
            requires
                out@.len() == y * target_w,
                y == target_h,
        ;
    }
    assert(out@ =~= spec_out);
    out
}


pub open spec fn abs_diff(a: u8, b: u8) -> nat {
    if a >= b {
        (a - b) as nat
    } else {
        (b - a) as nat
    }
}

/// The sum of the absolute differences of the first `n` bytes of two frames.
pub open spec fn diff_sum(a: Seq<u8>, b: Seq<u8>, n: nat) -> nat
    decreases n,
{
    if n == 0 {
        0
    } else {
        diff_sum(a, b, (n - 1) as nat) + abs_diff(a[n - 1], b[n - 1])
    }
}

/// The difference of two frames as a fraction `(total, most)`: the summed
/// absolute byte differences over the largest sum possible; `(0, 0)` (read as
/// no difference) where the frames differ in length or are empty.
pub open spec fn frame_difference_spec(a: Seq<u8>, b: Seq<u8>) -> (u64, u64) {
    if a.len() != b.len() || a.len() == 0 {
        (0, 0)
    } else {
        (diff_sum(a, b, a.len()) as u64, (a.len() * 255) as u64)
    }
}

proof fn lemma_diff_sum_bound(a: Seq<u8>, b: Seq<u8>, n: nat)
    ensures
        diff_sum(a, b, n) <= 255 * n,
    decreases n,
{
    if n > 0 {
        lemma_diff_sum_bound(a, b, (n - 1) as nat);
    }
}

/// The difference between two frames, as the fraction `(total, most)`.
pub fn frame_difference(a: &[u8], b: &[u8]) -> (r: (u64, u64))
    requires
        a@.len() * 255 <= u64::MAX,
    ensures
        r == frame_difference_spec(a@, b@),
{
    if a.len() != b.len() || a.len() == 0 {
        return (0, 0);
    }
    let mut total: u64 = 0;
    let mut i: usize = 0;
    while i < a.len()
        invariant
            i <= a@.len(),
            a@.len() == b@.len(),
            a@.len() * 255 <= u64::MAX,
            total == diff_sum(a@, b@, i as nat),
        decreases a@.len() - i,
    {
        proof {
            lemma_diff_sum_bound(a@, b@, i as nat);
        }
        let d: u64 = if a[i] >= b[i] {
            (a[i] - b[i]) as u64
        } else {
            (b[i] - a[i]) as u64
        };
        total = total + d;
        i = i + 1;
    }
    (total, (a.len() as u64) * 255)
}

/// The mean of the three channels of the `k`-th whole RGB pixel of a frame.
pub open spec fn pixel_mean(f: Seq<u8>, k: nat) -> nat {
    ((f[3 * k as int] + f[3 * k as int + 1] + f[3 * k as int + 2]) / 3) as nat
}

pub open spec fn brightness_sum(f: Seq<u8>, k: nat) -> nat
    decreases k,
{
    if k == 0 {
        0
    } else {
        brightness_sum(f, (k - 1) as nat) + pixel_mean(f, (k - 1) as nat)
    }
}

/// The brightness of a frame as `(sum of pixel means, pixel count)`, a trailing
/// partial pixel not counting; none for a frame without a whole pixel.
pub open spec fn brightness_spec(f: Seq<u8>) -> Option<(u64, u64)> {
    let pc = f.len() / 3;
    if pc == 0 {
        None
    } else {
        Some((brightness_sum(f, pc) as u64, pc as u64))
    }
}

proof fn lemma_brightness_bound(f: Seq<u8>, k: nat)
    ensures
        brightness_sum(f, k) <= 255 * k,
    decreases k,
{
    if k > 0 {
        lemma_brightness_bound(f, (k - 1) as nat);
    }
}

/// The brightness of a frame, as the sum of its pixel means and its pixel count.
pub fn average_brightness(frame: &[u8]) -> (r: Option<(u64, u64)>)
    requires
        (frame@.len() / 3) * 255 <= u64::MAX,
    ensures
        r == brightness_spec(frame@),
{
    let pc = frame.len() / 3;
    if pc == 0 {
        return None;
    }
    let mut total: u64 = 0;
    let mut k: usize = 0;
    while k < pc
        invariant
            k <= pc,
            pc == frame@.len() / 3,
            pc * 255 <= u64::MAX,
            total == brightness_sum(frame@, k as nat),
        decreases pc - k,
    {
        proof {
            lemma_brightness_bound(frame@, k as nat);
        }
        let n = frame.len();
        assert(3 * k + 2 < n);
        let base = 3 * k;
        let m = (frame[base] as u64 + frame[base + 1] as u64 + frame[base + 2] as u64) / 3;
        total = total + m;
        k = k + 1;
    }
    Some((total, pc as u64))
}

/// Whether more than `cooldown_secs` seconds lie between `since` and `now`
/// (instants in nanoseconds; an earlier `now` counts as no time passed).
pub open spec fn cooled_down(now: u64, since: u64, cooldown_secs: u64) -> bool {
    now >= since && now - since > cooldown_secs * 1_000_000_000
}

/// Whether fewer than `cooldown_secs` seconds lie between `since` and `now`.
pub open spec fn within_cooldown(now: u64, since: u64, cooldown_secs: u64) -> bool {
    !(now >= since && now - since >= cooldown_secs * 1_000_000_000)
}

fn elapsed_over(now: u64, since: u64, cooldown_secs: u64) -> (r: bool)
    ensures
        r == cooled_down(now, since, cooldown_secs),
{
    now >= since && ((now - since) as u128) > (cooldown_secs as u128) * 1_000_000_000
}

fn elapsed_under(now: u64, since: u64, cooldown_secs: u64) -> (r: bool)
    ensures
        r == within_cooldown(now, since, cooldown_secs),
{
    !(now >= since && ((now - since) as u128) >= (cooldown_secs as u128) * 1_000_000_000)
}

/// The integer settings of motion detection.
#[derive(Clone, Copy, Debug, PartialEq, Eq, Structural)]
pub struct MotionSettings {
    pub enabled: bool,
    pub cooldown_secs: u64,
    pub frame_width: u32,
    pub frame_height: u32,
}

impl MotionSettings {
    /// Whether frames of `len` bytes can be downscaled under these settings.
    pub open spec fn fits(self, len: nat) -> bool {
        &&& self.frame_width * self.frame_height <= u32::MAX
        &&& len / 3 <= u32::MAX
        &&& self.frame_width > 0 ==> (self.frame_width - 1) * source_width(len) <= u32::MAX
        &&& self.frame_height > 0 ==> (self.frame_height - 1) * source_height(len) <= u32::MAX
    }
}

/// The frames held after one more grey-scale frame: it is added, and the
/// oldest is let go once two are held.
pub open spec fn history_step(h: Seq<Seq<u8>>, gray: Seq<u8>) -> Seq<Seq<u8>> {
    if h.len() < 2 {
        h.push(gray)
    } else {
        h.drop_first().push(gray)
    }
}

/// The frames held after the grey-scale frames `grays`, from none.
pub open spec fn history_after(grays: Seq<Seq<u8>>) -> Seq<Seq<u8>>
    decreases grays.len(),
{
    if grays.len() == 0 {
        Seq::empty()
    } else {
        history_step(history_after(grays.drop_last()), grays.last())
    }
}

/// With detection on, the detector holds the last two frames it was given (fewer
/// at the start): so the first two frames are only kept, and every later frame is
/// compared with the one given two frames before it.
pub proof fn lemma_history_window(grays: Seq<Seq<u8>>)
    ensures
        grays.len() < 2 ==> history_after(grays) == grays,
        grays.len() >= 2 ==> history_after(grays) == grays.subrange(
            grays.len() - 2,
            grays.len() as int,
        ),
    decreases grays.len(),
{
    if grays.len() > 0 {
        let p = grays.drop_last();
        lemma_history_window(p);
        if p.len() < 2 {
            assert(history_after(grays) =~= p.push(grays.last()));
            if grays.len() < 2 {
                assert(p.push(grays.last()) =~= grays);
            } else {
                assert(p.push(grays.last()) =~= grays.subrange(grays.len() - 2, grays.len() as int));
            }
        } else {
            assert(history_after(grays) =~= grays.subrange(grays.len() - 2, grays.len() as int));
        }
    }
}

/// With detection on, frame `k` of a stream (from 0) meets a history of fewer
/// than two frames exactly when `k < 2`, so `observe` reports no difference for
/// the first two frames; from the third on, the frame is compared with frame
/// `k - 2`.
pub proof fn lemma_frame_compared_with(grays: Seq<Seq<u8>>, k: int)
    requires
        0 <= k < grays.len(),
    ensures
        history_after(grays.take(k)).len() < 2 <==> k < 2,
        k >= 2 ==> history_after(grays.take(k))[0] == grays[k - 2],
{
    lemma_history_window(grays.take(k));
    if k >= 2 {
        assert(grays.take(k).subrange(k - 2, k) =~= grays.subrange(k - 2, k));
    }
}

/// Motion detection over a stream of frames: each frame is compared with the
/// one taken two frames earlier.
pub struct MotionDetector {
    settings: MotionSettings,
    prev_frames: VecDeque<Vec<u8>>,
    last_motion: Option<u64>,
    motion_active: bool,
}

pub struct MotionView {
    pub settings: MotionSettings,
    pub history: Seq<Seq<u8>>,
    pub last_motion: Option<u64>,
    pub active: bool,
}

impl View for MotionDetector {
    type V = MotionView;

    closed spec fn view(&self) -> MotionView {
        MotionView {
            settings: self.settings,
            history: self.prev_frames@.map_values(|f: Vec<u8>| f@),
            last_motion: self.last_motion,
            active: self.motion_active,
        }
    }
}

impl MotionDetector {
    #[verifier::type_invariant]
    spec fn inv(self) -> bool {
        &&& self.prev_frames@.len() <= 2
        &&& forall|i: int| 0 <= i < self.prev_frames@.len() ==> #[trigger] self.prev_frames@[i]@.len() <= u32::MAX
    }

    pub fn new(settings: MotionSettings) -> (r: Self)
        ensures
            r@.settings == settings,
            r@.history.len() == 0,
            r@.last_motion is None,
            !r@.active,
    {
        let r = MotionDetector {
            settings,
            prev_frames: VecDeque::with_capacity(2),
            last_motion: None,
            motion_active: false,
        };
        assert(r@.history =~= Seq::<Seq<u8>>::empty());
        r
    }

    pub fn update_config(&mut self, settings: MotionSettings)
        ensures
            final(self)@ == (MotionView { settings, ..old(self)@ }),
    {
        proof {
            use_type_invariant(&*self);
        }
        self.settings = settings;
    }

    pub fn is_active(&self) -> (r: bool)
        ensures
            r == self@.active,
    {
        self.motion_active
    }

    /// Takes the next frame. When detection is off, motion ends and nothing is
    /// compared; while fewer than two frames are held, the frame is kept and
    /// nothing is compared; else the frame is compared with the older one held,
    /// which it replaces, and the difference is returned.
    pub fn observe(&mut self, frame: &[u8]) -> (r: Option<(u64, u64)>)
        requires
            old(self)@.settings.fits(frame@.len()),
        ensures
            ({
                let o = old(self)@;
                let n = final(self)@;
                let gray = grayscale_spec(
                    frame@,
                    o.settings.frame_width as nat,
                    o.settings.frame_height as nat,
                );
                &&& n.settings == o.settings
                &&& n.last_motion == o.last_motion
                &&& o.settings.enabled ==> n.history == history_step(o.history, gray)
                &&& !o.settings.enabled ==> r is None && n.history == o.history && !n.active
                &&& o.settings.enabled && o.history.len() < 2 ==> r is None && n.history
                    == o.history.push(gray) && n.active == o.active
                &&& o.settings.enabled && o.history.len() >= 2 ==> r == Some(
                    frame_difference_spec(o.history[0], gray),
                ) && n.history == o.history.drop_first().push(gray) && n.active == o.active
            }),
    {
        proof {
            use_type_invariant(&*self);
        }
        if !self.settings.enabled {
            self.motion_active = false;
            return None;
        }
        let gray = to_grayscale_downscaled(frame, self.settings.frame_width, self.settings.frame_height);
        assert(gray@.len() <= u32::MAX) by (nonlinear_arith)
            requires
                gray@.len() == self.settings.frame_width * self.settings.frame_height,
                self.settings.frame_width * self.settings.frame_height <= u32::MAX,
        ;
        let ghost old_hist = self@.history;
        if self.prev_frames.len() < 2 {
            let mut frames: VecDeque<Vec<u8>> = VecDeque::new();
            std::mem::swap(&mut frames, &mut self.prev_frames);
            frames.push_back(gray);
            self.prev_frames = frames;
            assert(self@.history =~= old_hist.push(gray@));
            return None;
        }
        assert(self.prev_frames@[0]@.len() <= u32::MAX);
        let diff = frame_difference(self.prev_frames[0].as_slice(), gray.as_slice());
        let mut frames: VecDeque<Vec<u8>> = VecDeque::new();
        std::mem::swap(&mut frames, &mut self.prev_frames);
        let _ = frames.pop_front();
        frames.push_back(gray);
        self.prev_frames = frames;
        assert(self@.history =~= old_hist.drop_first().push(gray@));
        Some(diff)
    }

    /// Decides on a compared frame whose difference did (`exceeds`) or did not
    /// pass the threshold, at instant `now` (nanoseconds). Motion fires when the
    /// difference passed and no motion fired within the cool-down; it then
    /// becomes active. Otherwise, motion ends once the cool-down has passed
    /// since the last one.
    pub fn decide(&mut self, exceeds: bool, now: u64) -> (fired: bool)
        ensures
            ({
                let o = old(self)@;
                let n = final(self)@;
                let cd = o.settings.cooldown_secs;
                &&& fired == (exceeds && match o.last_motion {
                    Some(last) => cooled_down(now, last, cd),
                    None => true,
                })
                &&& n.settings == o.settings
                &&& n.history == o.history
                &&& fired ==> n.last_motion == Some(now) && n.active
                &&& !fired ==> n.last_motion == o.last_motion && n.active == match o.last_motion {
                    Some(last) => !cooled_down(now, last, cd) && o.active,
                    None => o.active,
                }
            }),
    {
        proof {
            use_type_invariant(&*self);
        }
        if exceeds {
            let should_fire = match self.last_motion {
                Some(last) => elapsed_over(now, last, self.settings.cooldown_secs),
                None => true,
            };
            if should_fire {
                self.last_motion = Some(now);
                self.motion_active = true;
                return true;
            }
        }
        match self.last_motion {
            Some(last) => {
                if elapsed_over(now, last, self.settings.cooldown_secs) {
                    self.motion_active = false;
                }
            },
            None => {},
        }
        false
    }
}

/// The settings of tamper detection.
#[derive(Clone, Copy, Debug, PartialEq, Eq, Structural)]
pub struct TamperConfig {
    pub enabled: bool,
    pub cooldown_secs: u64,
}

impl Default for TamperConfig {
    fn default() -> (r: Self)
        ensures
            r == (TamperConfig { enabled: true, cooldown_secs: 30 }),
    {
        TamperConfig { enabled: true, cooldown_secs: 30 }
    }
}

/// How a frame's brightness compares with the darkness and obstruction limits.
#[derive(Clone, Copy, Debug, PartialEq, Eq, Structural)]
pub enum BrightnessLevel {
    Dark,
    Normal,
    Bright,
}

/// Tamper detection: a frame gone dark or bright, or frames that stop coming.
pub struct TamperDetector {
    config: TamperConfig,
    last_tamper: Option<u64>,
    feed_loss_count: u32,
}

pub struct TamperView {
    pub config: TamperConfig,
    pub last_tamper: Option<u64>,
    pub missed: nat,
}

impl View for TamperDetector {
    type V = TamperView;

    closed spec fn view(&self) -> TamperView {
        TamperView {
            config: self.config,
            last_tamper: self.last_tamper,
            missed: self.feed_loss_count as nat,
        }
    }
}

/// The number of missing frames in a row after which the feed counts as lost.
pub open spec fn feed_loss_limit() -> nat {
    5
}

impl TamperDetector {
    #[verifier::type_invariant]
    spec fn inv(self) -> bool {
        self.feed_loss_count < 5
    }

    pub fn new(config: TamperConfig) -> (r: Self)
        ensures
            r@ == (TamperView { config, last_tamper: None, missed: 0 }),
    {
        TamperDetector { config, last_tamper: None, feed_loss_count: 0 }
    }

    pub fn update_config(&mut self, config: TamperConfig)
        ensures
            final(self)@ == (TamperView { config, ..old(self)@ }),
    {
        proof {
            use_type_invariant(&*self);
        }
        self.config = config;
    }

    /// Whether a frame's brightness is taken at all: detection is on and the
    /// frame holds data.
    pub fn measures(&self, frame: &[u8]) -> (r: bool)
        ensures
            r == (self@.config.enabled && frame@.len() > 0),
    {
        self.config.enabled && frame.len() > 0
    }

    /// Decides on a frame whose brightness was classified as `level`, at
    /// instant `now`: nothing while detection is off, for an empty frame, or
    /// within the cool-down of the last tamper event; else sudden darkness or
    /// obstruction for a dark or bright frame, which starts a cool-down.
    pub fn check_brightness(&mut self, frame: &[u8], level: BrightnessLevel, now: u64) -> (r:
        Option<TamperKind>)
        ensures
            ({
                let o = old(self)@;
                let n = final(self)@;
                let quiet = !o.config.enabled || frame@.len() == 0 || match o.last_tamper {
                    Some(last) => within_cooldown(now, last, o.config.cooldown_secs),
                    None => false,
                };
                &&& n.config == o.config
                &&& n.missed == o.missed
                &&& r == if quiet {
                    None
                } else {
                    match level {
                        BrightnessLevel::Dark => Some(TamperKind::SuddenDarkness),
                        BrightnessLevel::Bright => Some(TamperKind::Obstruction),
                        BrightnessLevel::Normal => None,
                    }
                }
                &&& n.last_tamper == if r is Some {
                    Some(now)
                } else {
                    o.last_tamper
                }
            }),
    {
        proof {
            use_type_invariant(&*self);
        }
        if !self.config.enabled || frame.len() == 0 {
            return None;
        }
        let in_cooldown = match self.last_tamper {
            Some(last) => elapsed_under(now, last, self.config.cooldown_secs),
            None => false,
        };
        if in_cooldown {
            return None;
        }
        match level {
            BrightnessLevel::Dark => {
                self.last_tamper = Some(now);
                Some(TamperKind::SuddenDarkness)
            },
            BrightnessLevel::Bright => {
                self.last_tamper = Some(now);
                Some(TamperKind::Obstruction)
            },
            BrightnessLevel::Normal => None,
        }
    }

    /// Counts a frame that did or did not arrive, at instant `now`. The fifth
    /// missing frame in a row resets the count and reports the feed as lost,
    /// unless within the cool-down of the last tamper event; an arriving frame
    /// resets the count. Nothing happens while detection is off.
    pub fn check_feed_loss(&mut self, frame_available: bool, now: u64) -> (r: Option<TamperKind>)
        ensures
            ({
                let o = old(self)@;
                let n = final(self)@;
                let quiet = match o.last_tamper {
                    Some(last) => within_cooldown(now, last, o.config.cooldown_secs),
                    None => false,
                };
                &&& n.config == o.config
                &&& !o.config.enabled ==> r is None && n == o
                &&& o.config.enabled && frame_available ==> r is None && n.missed == 0
                    && n.last_tamper == o.last_tamper
                &&& o.config.enabled && !frame_available && o.missed + 1 < feed_loss_limit()
                    ==> r is None && n.missed == o.missed + 1 && n.last_tamper == o.last_tamper
                &&& o.config.enabled && !frame_available && o.missed + 1 >= feed_loss_limit()
                    ==> n.missed == 0 && r == (if quiet {
                    None
                } else {
                    Some(TamperKind::FeedLoss)
                }) && n.last_tamper == (if quiet {
                    o.last_tamper
                } else {
                    Some(now)
                })
                &&& r is Some ==> !frame_available && o.missed == feed_loss_limit() - 1
            }),
    {
        proof {
            use_type_invariant(&*self);
        }
        if !self.config.enabled {
            return None;
        }
        if !frame_available {
            let count = self.feed_loss_count + 1;
            if count >= 5 {
                self.feed_loss_count = 0;
                let in_cooldown = match self.last_tamper {
                    Some(last) => elapsed_under(now, last, self.config.cooldown_secs),
                    None => false,
                };
                if !in_cooldown {
                    self.last_tamper = Some(now);
                    return Some(TamperKind::FeedLoss);
                }
            } else {
                self.feed_loss_count = count;
            }
        } else {
            self.feed_loss_count = 0;
        }
        None
    }
}

} // verus!
