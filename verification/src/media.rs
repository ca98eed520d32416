//! Numeric rules of the capture pipeline: frame rates, frame cadence, sizes and bit
//! rates. Times are in 100-nanosecond ticks, the unit of Media Foundation and WGC.
use vstd::prelude::*;
use crate::text::{decimal, zero_pad};

verus! {

/// Ticks (100 ns) in one second.
pub const TICKS_PER_SECOND: i64 = 10_000_000;

/// Division rounding toward zero, as Rust's `/` on signed integers does.
pub open spec fn trunc_div(a: int, b: int) -> int {
    if a >= 0 {
        a / b
    } else {
        -((-a) / b)
    }
}

/// `x` rounded down to an even number.
pub open spec fn even_down(x: int) -> int {
    x - x % 2
}

pub open spec fn min_int(a: int, b: int) -> int {
    if a <= b {
        a
    } else {
        b
    }
}

pub open spec fn max_int(a: int, b: int) -> int {
    if a >= b {
        a
    } else {
        b
    }
}

proof fn lemma_clear_low_bit_u32(x: u32)
    ensures
        x & !1u32 == x - x % 2,
{
    assert(x & !1u32 == x - x % 2) by (bit_vector);
}

// ---------------------------------------------------------------------------
// Frame rate and cadence
// ---------------------------------------------------------------------------

/// The frame rate the pipeline runs at: the requested one, kept within 10 to 240.
pub fn clamp_fps(fps: u32) -> (r: u32)
    ensures
        r == if fps < 10 {
            10
        } else if fps > 240 {
            240
        } else {
            fps
        },
{
    if fps < 10 {
        10
    } else if fps > 240 {
        240
    } else {
        fps
    }
}

/// Ticks between two frames at `fps`; 0 means no limit.
pub open spec fn spec_fps_interval(fps: u32) -> int {
    if fps == 0 {
        0
    } else {
        10_000_000int / (fps as int)
    }
}

/// Minimum spacing (in ticks) between encoded frames so as not to exceed `fps`; 0 when
/// `fps` is 0 (no limit).
pub fn fps_interval(fps: u32) -> (r: i64)
    ensures
        r == spec_fps_interval(fps),
        0 <= r <= 10_000_000,
{
    if fps == 0 {
        0
    } else {
        10_000_000 / (fps as i64)
    }
}

/// The presentation time of constant-frame-rate slot `n`: `n` seconds divided by the
/// frame rate, computed from the slot index (never accumulated), rounded toward zero.
pub open spec fn spec_cfr_pts(n: int, fps: u32) -> int {
    if fps == 0 {
        0
    } else {
        trunc_div(n * 10_000_000, fps as int)
    }
}

/// A slot index whose time in ticks fits in an `i64`.
pub open spec fn slot_in_range(n: int) -> bool {
    i64::MIN <= n * 10_000_000 <= i64::MAX
}

/// Presentation time (ticks) of constant-frame-rate slot `slot` at `fps`. The duration
/// of slot `n` is `cfr_pts(n + 1) - cfr_pts(n)`.
pub fn cfr_pts(slot: i64, fps: u32) -> (r: i64)
    requires
        fps > 0 ==> slot_in_range(slot as int),
    ensures
        r == spec_cfr_pts(slot as int, fps),
{
    if fps == 0 {
        0
    } else {
        (slot * 10_000_000) / (fps as i64)
    }
}

/// Slot times do not drift: one second of slots later is exactly one second later.
pub proof fn lemma_cfr_pts_no_drift(n: int, fps: u32)
    requires
        n >= 0,
        fps > 0,
    ensures
        spec_cfr_pts(n + fps, fps) == spec_cfr_pts(n, fps) + 10_000_000,
{
    let f = fps as int;
    let x = n * 10_000_000;
    let y = (n + f) * 10_000_000;
    assert(x >= 0) by (nonlinear_arith)
        requires
            x == n * 10_000_000,
            n >= 0,
    ;
    assert(y == x + f * 10_000_000) by (nonlinear_arith)
        requires
            x == n * 10_000_000,
            y == (n + f) * 10_000_000,
    ;
    vstd::arithmetic::div_mod::lemma_fundamental_div_mod(x, f);
    let q = x / f;
    let r = x % f;
    assert(y == (q + 10_000_000) * f + r) by (nonlinear_arith)
        requires
            x == f * q + r,
            y == x + f * 10_000_000,
    ;
    vstd::arithmetic::div_mod::lemma_fundamental_div_mod_converse(y, f, q + 10_000_000, r);
}

/// Slot times never go backward, and each slot at a frame rate of at most 10^7 lasts
/// `10^7 / fps` ticks, rounded down or up.
pub proof fn lemma_cfr_pts_step(n: int, fps: u32)
    requires
        n >= 0,
        fps > 0,
    ensures
        spec_cfr_pts(n, fps) <= spec_cfr_pts(n + 1, fps),
        spec_cfr_pts(n + 1, fps) - spec_cfr_pts(n, fps) >= 10_000_000int / (fps as int),
        spec_cfr_pts(n + 1, fps) - spec_cfr_pts(n, fps) <= 10_000_000int / (fps as int) + 1,
{
    let f = fps as int;
    let a = n * 10_000_000;
    assert(a >= 0) by (nonlinear_arith)
        requires
            a == n * 10_000_000,
            n >= 0,
    ;
    assert((n + 1) * 10_000_000 == a + 10_000_000) by (nonlinear_arith)
        requires
            a == n * 10_000_000,
    ;
    vstd::arithmetic::div_mod::lemma_fundamental_div_mod(a, f);
    vstd::arithmetic::div_mod::lemma_fundamental_div_mod(a + 10_000_000, f);
    vstd::arithmetic::div_mod::lemma_fundamental_div_mod(10_000_000int, f);
    let q1 = a / f;
    let q2 = (a + 10_000_000) / f;
    let q = 10_000_000int / f;
    assert(q2 - q1 >= q && q2 - q1 <= q + 1) by (nonlinear_arith)
        requires
            a == f * q1 + a % f,
            a + 10_000_000 == f * q2 + (a + 10_000_000) % f,
            10_000_000 == f * q + 10_000_000int % f,
            0 <= a % f < f,
            0 <= (a + 10_000_000) % f < f,
            0 <= 10_000_000int % f < f,
            f > 0,
    ;
}

/// Slots elapsed after `hns` ticks, with slots `interval` ticks long (at least one).
pub fn elapsed_slots(hns: i64, interval: i64) -> (r: i64)
    requires
        hns >= 0,
    ensures
        r == (hns as int) / max_int(interval as int, 1),
        r >= 0,
{
    let iv = if interval > 1 {
        interval
    } else {
        1
    };
    hns / iv
}

/// How long the pacing loop sleeps between checks, in milliseconds: under one frame
/// period, from 1 to 8 ms.
pub fn pace_sleep_ms(interval: i64) -> (r: u64)
    ensures
        r as int == if trunc_div(interval as int, 20_000) < 1 {
            1
        } else if trunc_div(interval as int, 20_000) > 8 {
            8
        } else {
            trunc_div(interval as int, 20_000)
        },
{
    let ms = interval / 20_000;
    if ms < 1 {
        1
    } else if ms > 8 {
        8
    } else {
        ms as u64
    }
}

/// Minimum update interval asked of the capture session: half a frame period, at
/// least 2 ms, so that the frame limiter always has candidates.
pub fn min_update_interval(fps: u32) -> (r: i64)
    ensures
        r == max_int(spec_fps_interval(fps) / 2, 20_000),
{
    let half = fps_interval(fps) / 2;
    if half > 20_000 {
        half
    } else {
        20_000
    }
}

/// Keyframe spacing asked of the replay encoder: about one second of frames, at least
/// 8. Fewer costly IDR frames than half a second, while saving a replay still starts
/// at a recent keyframe.
pub fn gop_size(fps: u32) -> (r: u32)
    ensures
        r == max_int(fps as int, 8),
{
    if fps > 8 {
        fps
    } else {
        8
    }
}

/// Keyframe spacing asked of the encoder of a manual recording: about two seconds of
/// frames, at least 16.
pub fn manual_gop_size(fps: u32) -> (r: u32)
    requires
        fps <= u32::MAX / 2,
    ensures
        r == max_int(2 * fps, 16),
{
    let two = fps * 2;
    if two > 16 {
        two
    } else {
        16
    }
}

/// The peak bit rate of peak-constrained VBR: 1.75 times the mean, the product
/// saturating at `u32::MAX` before the division.
pub fn peak_bitrate(mean: u32) -> (r: u32)
    ensures
        r == min_int(7 * mean, u32::MAX as int) / 4,
{
    let product: u64 = mean as u64 * 7;
    let saturated: u32 = if product > u32::MAX as u64 {
        u32::MAX
    } else {
        product as u32
    };
    saturated / 4
}

/// Decision of the frame limiter for a frame at time `t`: whether to keep it, and the
/// next target time. `next` is `i64::MIN` before the first frame.
pub open spec fn spec_keep_frame(next: i64, t: i64, interval: i64) -> (bool, i64) {
    if interval <= 0 {
        (true, next)
    } else if next == i64::MIN {
        (true, (t + interval) as i64)
    } else if t >= next - interval / 8 {
        if t - next > 8 * interval {
            (true, (t + interval) as i64)
        } else {
            (true, (next + interval) as i64)
        }
    } else {
        (false, next)
    }
}

/// The frame limiter's targets, in terms of the frame's time: once a target is set, a
/// frame no more than an eighth of an interval early and no more than eight intervals
/// late is kept and moves the target by exactly one interval (so jitter never makes
/// the targets drift); a frame more than eight intervals late is kept and re-anchors
/// the target one interval after it; an earlier frame is dropped and leaves the target.
/// The first frame is kept and sets the target one interval after it.
pub proof fn law_keep_frame_targets(next: i64, t: i64, interval: i64)
    requires
        interval > 0,
        i64::MIN <= t + interval <= i64::MAX,
        next != i64::MIN ==> i64::MIN <= next + interval <= i64::MAX,
    ensures
        next == i64::MIN ==> spec_keep_frame(next, t, interval) == (true, (t + interval) as i64),
        next != i64::MIN && next - interval / 8 <= t <= next + 8 * interval ==> spec_keep_frame(
            next,
            t,
            interval,
        ).0 && spec_keep_frame(next, t, interval).1 == next + interval,
        next != i64::MIN && t > next + 8 * interval ==> spec_keep_frame(next, t, interval).0
            && spec_keep_frame(next, t, interval).1 == t + interval,
        next != i64::MIN && t < next - interval / 8 ==> spec_keep_frame(next, t, interval) == (false, next),
{
}

/// The frame limiter: keeps a frame at time `t` if it is not more than an eighth of an
/// interval early for the current target `next` (`i64::MIN` before the first frame),
/// and returns the new target. The target moves by exactly one interval, so the kept
/// count matches the requested rate even when the display rate is not a multiple of
/// it; only a gap of more than eight intervals re-anchors it to `t`.
pub fn keep_frame(next: i64, t: i64, interval: i64) -> (r: (bool, i64))
    requires
        interval > 0 ==> {
            &&& i64::MIN <= t + interval <= i64::MAX
            &&& next != i64::MIN ==> {
                &&& i64::MIN <= next + interval <= i64::MAX
                &&& i64::MIN <= next - interval / 8
                &&& i64::MIN <= t - next <= i64::MAX
                &&& 8 * interval <= i64::MAX
            }
        },
    ensures
        r == spec_keep_frame(next, t, interval),
        r.0 && interval > 0 && next != i64::MIN ==> r.1 == next + interval || r.1 == t + interval,
        !r.0 ==> r.1 == next,
{
    if interval <= 0 {
        return (true, next);
    }
    if next == i64::MIN {
        return (true, t + interval);
    }
    if t >= next - interval / 8 {
        let nd = if t - next > 8 * interval {
            t + interval
        } else {
            next + interval
        };
        (true, nd)
    } else {
        (false, next)
    }
}

/// Where the pacing of the replay encoder stands: the last slot fed to the encoder and
/// its presentation time.
pub struct Cadence {
    pub emitted: i64,
    pub emitted_pts: i64,
}

/// Slots whose times fit comfortably in an `i64` for the pacing loop.
pub open spec fn cadence_slot_ok(n: int) -> bool {
    -1 <= n && (n + 2) * 10_000_000 <= i64::MAX
}

impl Cadence {
    /// Nothing emitted yet.
    pub fn new() -> (c: Cadence)
        ensures
            c.emitted == -1,
            c.emitted_pts == -1,
    {
        Cadence { emitted: -1, emitted_pts: -1 }
    }

    /// When the encoder has fallen more than a second of slots behind the clock, skip
    /// to just before the current slot instead of owing frames without end.
    pub fn resync(&mut self, cur: i64, fps: u32)
        requires
            cadence_slot_ok(cur as int),
            cadence_slot_ok(old(self).emitted as int),
        ensures
            if cur - old(self).emitted > fps {
                &&& final(self).emitted == cur - 1
                &&& final(self).emitted_pts == max_int(
                    old(self).emitted_pts as int,
                    spec_cfr_pts(cur - 1, fps),
                )
            } else {
                *final(self) == *old(self)
            },
    {
        if cur - self.emitted > fps as i64 {
            self.emitted = cur - 1;
            let p = cfr_pts(self.emitted, fps);
            if p > self.emitted_pts {
                self.emitted_pts = p;
            }
        }
    }

    /// The next slot to feed while the clock is at slot `cur`, with its presentation
    /// time: the slot's own time, or one tick after the previous one if that is later
    /// (so times always increase). None when the clock has not passed the last slot.
    pub fn next_slot(&self, cur: i64, fps: u32) -> (r: Option<(i64, i64)>)
        requires
            cadence_slot_ok(self.emitted as int),
            self.emitted_pts < i64::MAX,
        ensures
            self.emitted < cur ==> r == Some(
                (
                    (self.emitted + 1) as i64,
                    max_int(spec_cfr_pts(self.emitted + 1, fps), self.emitted_pts + 1) as i64,
                ),
            ),
            self.emitted >= cur ==> r is None,
    {
        if self.emitted < cur {
            let slot = self.emitted + 1;
            let p = cfr_pts(slot, fps);
            let q = self.emitted_pts + 1;
            Some((slot, if p > q { p } else { q }))
        } else {
            None
        }
    }

    /// Records that `slot` was fed with presentation time `pts`.
    pub fn commit(&mut self, slot: i64, pts: i64)
        ensures
            final(self).emitted == slot,
            final(self).emitted_pts == pts,
    {
        self.emitted = slot;
        self.emitted_pts = pts;
    }

    /// While the game is minimized the slot pointer follows the clock without feeding
    /// duplicates.
    pub fn follow_clock(&mut self, elapsed: i64)
        ensures
            final(self).emitted == max_int(old(self).emitted as int, elapsed as int),
            final(self).emitted_pts == old(self).emitted_pts,
    {
        if elapsed > self.emitted {
            self.emitted = elapsed;
        }
    }
}

/// Presentation times are strictly increasing along the replay cadence: the time of the
/// slot `next_slot` proposes is later than the last committed one, and the slot is not
/// ahead of the clock.
pub proof fn lemma_cadence_monotonic(c: Cadence, cur: i64, fps: u32)
    requires
        c.emitted < cur,
    ensures
        max_int(spec_cfr_pts(c.emitted + 1, fps), c.emitted_pts + 1) > c.emitted_pts,
        c.emitted + 1 <= cur,
{
}

/// The slot after which a round of the manual recorder's pacing starts, with slot
/// `emitted` the last one written and the clock at slot `cur`: just before the clock's
/// slot when more than a second of slots is owed, else `emitted`.
pub open spec fn paced_start(emitted: int, cur: int, fps: u32) -> int {
    if cur - emitted > fps {
        cur - 1
    } else {
        emitted
    }
}

/// The last slot written after such a round.
pub open spec fn paced_last(emitted: int, cur: int, fps: u32) -> int {
    max_int(paced_start(emitted, cur, fps), cur)
}

/// Across rounds of the manual recorder's pacing, with a clock that does not go back,
/// the slots run on: the next round's first slot is the one after the last slot
/// written, unless more than a second of slots is owed, when it is the clock's slot;
/// no slot is written twice or out of order.
pub proof fn law_paced_slots_are_consecutive(emitted: int, cur1: int, cur2: int, fps: u32)
    requires
        cur1 <= cur2,
    ensures
        ({
            let last = paced_last(emitted, cur1, fps);
            &&& last >= emitted
            &&& cur2 - last <= fps ==> paced_start(last, cur2, fps) == last
            &&& cur2 - last > fps ==> paced_start(last, cur2, fps) + 1 == cur2
            &&& paced_start(last, cur2, fps) >= last
        }),
{
}

/// The slots a round of the manual recorder's pacing writes: those after
/// `paced_start` up to the clock's slot `cur`.
pub open spec fn paced_slots(emitted: int, cur: int, fps: u32) -> Seq<int> {
    let start = paced_start(emitted, cur, fps);
    Seq::new(max_int(cur - start, 0) as nat, |k: int| start + 1 + k)
}

/// The slots written over rounds whose clock slots are `curs`, from `emitted` on.
pub open spec fn paced_run(emitted: int, curs: Seq<int>, fps: u32) -> Seq<int>
    decreases curs.len(),
{
    if curs.len() == 0 {
        seq![]
    } else {
        paced_slots(emitted, curs[0], fps) + paced_run(paced_last(emitted, curs[0], fps), curs.drop_first(), fps)
    }
}

/// Slots that follow slot `e` as the pacing writes them: each later than the one
/// before (the first later than `e`), one after another, save a jump of more than a
/// second of slots where the recorder fell behind.
pub open spec fn runs_on_from(e: int, s: Seq<int>, fps: u32) -> bool {
    &&& forall|i: int| 0 <= i < s.len() ==> #[trigger] s[i] > e
    &&& forall|i: int, j: int| 0 <= i < j < s.len() ==> (#[trigger] s[i]) < (#[trigger] s[j])
    &&& s.len() > 0 ==> s[0] == e + 1 || s[0] - e > fps
    &&& forall|i: int| 0 < i < s.len() ==> (#[trigger] s[i]) == s[i - 1] + 1 || s[i] - s[i - 1] > fps
}

proof fn lemma_paced_slots_run_on(e: int, cur: int, fps: u32)
    ensures
        runs_on_from(e, paced_slots(e, cur, fps), fps),
        paced_slots(e, cur, fps).len() > 0 ==> paced_slots(e, cur, fps).last() == paced_last(e, cur, fps),
        paced_slots(e, cur, fps).len() == 0 ==> paced_last(e, cur, fps) == e,
        paced_last(e, cur, fps) >= e,
{
}

#[verifier::spinoff_prover]
#[verifier::rlimit(60)]
proof fn lemma_runs_on_concat(e: int, a: Seq<int>, m: int, b: Seq<int>, fps: u32)
    requires
        runs_on_from(e, a, fps),
        a.len() > 0 ==> a.last() == m,
        a.len() == 0 ==> m == e,
        runs_on_from(m, b, fps),
    ensures
        runs_on_from(e, a + b, fps),
{
    let s = a + b;
    assert forall|i: int| 0 <= i < s.len() implies #[trigger] s[i] > e by {
        if i >= a.len() {
            assert(s[i] == b[i - a.len()]);
            if a.len() > 0 {
                assert(a[a.len() - 1] > e);
            }
        }
    }
    assert forall|i: int, j: int| 0 <= i < j < s.len() implies (#[trigger] s[i]) < (#[trigger] s[j]) by {
        if j < a.len() {
            assert(s[i] == a[i] && s[j] == a[j]);
        } else if i >= a.len() {
            assert(s[i] == b[i - a.len()] && s[j] == b[j - a.len()]);
        } else {
            assert(s[i] == a[i] && s[j] == b[j - a.len()]);
            if i < a.len() - 1 {
                assert(a[i] < a[a.len() - 1]);
            }
        }
    }
    assert forall|i: int| 0 < i < s.len() implies (#[trigger] s[i]) == s[i - 1] + 1 || s[i] - s[i - 1] > fps by {
        if i < a.len() {
            assert(s[i] == a[i] && s[i - 1] == a[i - 1]);
        } else if i > a.len() {
            assert(s[i] == b[i - a.len()] && s[i - 1] == b[i - 1 - a.len()]);
        } else {
            assert(s[i] == b[0] && s[i - 1] == a[a.len() - 1]);
        }
    }
    if a.len() == 0 {
        assert(s =~= b);
    } else {
        assert(s[0] == a[0]);
    }
}

/// Over any number of rounds the manual recorder writes each slot once, in order,
/// starting right after slot `emitted`: every slot follows the one before, save a jump
/// of more than a second of slots where the recorder fell behind the clock.
pub proof fn law_paced_run(emitted: int, curs: Seq<int>, fps: u32)
    ensures
        runs_on_from(emitted, paced_run(emitted, curs, fps), fps),
    decreases curs.len(),
{
    if curs.len() > 0 {
        let m = paced_last(emitted, curs[0], fps);
        lemma_paced_slots_run_on(emitted, curs[0], fps);
        law_paced_run(m, curs.drop_first(), fps);
        lemma_runs_on_concat(emitted, paced_slots(emitted, curs[0], fps), m, paced_run(m, curs.drop_first(), fps), fps);
    }
}

/// The frames the manual recorder writes when the clock is at slot `cur` and slot
/// `emitted` was the last one written: after skipping ahead when more than a second of
/// slots is owed, one (time, duration) pair per slot up to `cur`. Returns the new last
/// slot with them.
pub fn paced_emissions(emitted: i64, cur: i64, fps: u32) -> (r: (i64, Vec<(i64, i64)>))
    requires
        cadence_slot_ok(emitted as int),
        cadence_slot_ok(cur as int),
    ensures
        ({
            let start = paced_start(emitted as int, cur as int, fps);
            &&& r.0 == paced_last(emitted as int, cur as int, fps)
            &&& r.1@.len() == max_int(cur - start, 0)
            &&& r.1@.len() == paced_slots(emitted as int, cur as int, fps).len()
            &&& forall|k: int|
                0 <= k < r.1@.len() ==> (#[trigger] r.1@[k]).0 == spec_cfr_pts(
                    paced_slots(emitted as int, cur as int, fps)[k],
                    fps,
                )
            &&& forall|k: int|
                0 <= k < r.1@.len() ==> #[trigger] r.1@[k] == (
                    spec_cfr_pts(start + 1 + k, fps) as i64,
                    (spec_cfr_pts(start + 2 + k, fps) - spec_cfr_pts(start + 1 + k, fps)) as i64,
                )
        }),
{
    let mut e = emitted;
    if cur - e > fps as i64 {
        e = cur - 1;
    }
    let ghost start = e as int;
    let mut out: Vec<(i64, i64)> = Vec::new();
    while e < cur
        invariant
            start <= e,
            cadence_slot_ok(start),
            cadence_slot_ok(cur as int),
            start <= cur ==> e <= cur,
            start > cur ==> e == start,
            out@.len() == e - start,
            forall|k: int|
                0 <= k < out@.len() ==> #[trigger] out@[k] == (
                    spec_cfr_pts(start + 1 + k, fps) as i64,
                    (spec_cfr_pts(start + 2 + k, fps) - spec_cfr_pts(start + 1 + k, fps)) as i64,
                ),
        decreases cur - e,
    {
        e = e + 1;
        let pts = cfr_pts(e, fps);
        let next = cfr_pts(e + 1, fps);
        out.push((pts, next - pts));
    }
    (e, out)
}

// ---------------------------------------------------------------------------
// Sizes
// ---------------------------------------------------------------------------

/// A capture dimension as the encoder needs it: at least 2 and even (NV12 and H.264
/// reject odd sizes), rounding down.
pub fn even_capture_dim(x: i32) -> (r: u32)
    ensures
        r == even_down(max_int(x as int, 2)),
{
    let m: i32 = if x > 2 {
        x
    } else {
        2
    };
    let u: u32 = m as u32;
    proof {
        lemma_clear_low_bit_u32(u);
    }
    u & !1u32
}

/// Whether a frame of the given content size shows the window changed size: its even
/// dimensions are at least 2 and differ from the capture size.
pub fn capture_size_changed(content_w: i32, content_h: i32, width: u32, height: u32) -> (r: bool)
    ensures
        r == ({
            let cw = even_down(max_int(content_w as int, 0));
            let ch = even_down(max_int(content_h as int, 0));
            cw >= 2 && ch >= 2 && (cw != width || ch != height)
        }),
{
    let w: u32 = if content_w > 0 {
        content_w as u32
    } else {
        0
    };
    let h: u32 = if content_h > 0 {
        content_h as u32
    } else {
        0
    };
    proof {
        lemma_clear_low_bit_u32(w);
        lemma_clear_low_bit_u32(h);
    }
    let cw = w & !1u32;
    let ch = h & !1u32;
    cw >= 2 && ch >= 2 && (cw != width || ch != height)
}

/// The output size for a capture of `cap_w`×`cap_h` and a target height (0 = native).
pub open spec fn spec_output_dims(cap_w: u32, cap_h: u32, target_h: u32) -> (u32, u32) {
    if target_h == 0 || target_h >= cap_h || cap_h == 0 {
        (cap_w, cap_h)
    } else {
        let out_h = max_int(even_down(target_h as int), 2);
        let out_w = max_int(even_down((cap_w as int) * out_h / (cap_h as int)), 2);
        (out_w as u32, out_h as u32)
    }
}

/// Output dimensions for a capture of `cap_w`×`cap_h` and a target height (0 = native):
/// the aspect ratio is kept, sizes are rounded down to even numbers (at least 2), and
/// the picture is never scaled up: a target at or above the native height records at
/// native size.
pub fn output_dims(cap_w: u32, cap_h: u32, target_h: u32) -> (r: (u32, u32))
    ensures
        r == spec_output_dims(cap_w, cap_h, target_h),
{
    if target_h == 0 || target_h >= cap_h || cap_h == 0 {
        return (cap_w, cap_h);
    }
    proof {
        lemma_clear_low_bit_u32(target_h);
    }
    let th = target_h & !1u32;
    let out_h: u32 = if th > 2 {
        th
    } else {
        2
    };
    assert((cap_w as u64) * (out_h as u64) <= u64::MAX) by (nonlinear_arith)
        requires
            cap_w <= u32::MAX,
            out_h <= u32::MAX,
    ;
    let prod: u64 = (cap_w as u64) * (out_h as u64);
    let q: u64 = prod / (cap_h as u64);
    assert(q <= cap_w) by (nonlinear_arith)
        requires
            q == prod / (cap_h as u64),
            prod == (cap_w as u64) * (out_h as u64),
            out_h <= cap_h,
            cap_h > 0,
    {
        vstd::arithmetic::div_mod::lemma_div_is_ordered(prod as int, (cap_w as int) * (cap_h as int), cap_h as int);
        vstd::arithmetic::div_mod::lemma_div_multiples_vanish(cap_w as int, cap_h as int);
    }
    let q32: u32 = q as u32;
    proof {
        lemma_clear_low_bit_u32(q32);
    }
    let ew = q32 & !1u32;
    let out_w: u32 = if ew > 2 {
        ew
    } else {
        2
    };
    (out_w, out_h)
}

/// Scaling never enlarges the picture: the output is at most the capture size,
/// whenever the capture is at least 2×2.
pub proof fn lemma_output_dims_no_upscale(cap_w: u32, cap_h: u32, target_h: u32)
    requires
        cap_w >= 2,
        cap_h >= 2,
    ensures
        spec_output_dims(cap_w, cap_h, target_h).0 <= cap_w,
        spec_output_dims(cap_w, cap_h, target_h).1 <= cap_h,
{
    if !(target_h == 0 || target_h >= cap_h || cap_h == 0) {
        let out_h = max_int(even_down(target_h as int), 2);
        assert(out_h <= cap_h);
        assert((cap_w as int) * out_h / (cap_h as int) <= cap_w) by (nonlinear_arith)
            requires
                out_h <= cap_h,
                cap_h > 0,
                out_h >= 0,
                cap_w >= 0,
        {
            vstd::arithmetic::div_mod::lemma_div_is_ordered((cap_w as int) * out_h, (cap_w as int) * (cap_h as int), cap_h as int);
            vstd::arithmetic::div_mod::lemma_div_multiples_vanish(cap_w as int, cap_h as int);
        }
    }
}

/// What scaling gives, in terms of the capture size and the target height: at native
/// size when no smaller target is asked for; otherwise both sides even and at least 2,
/// the height the largest even number not above the target, and the width the largest
/// even number whose aspect does not exceed the capture's (`w / h <= cap_w / cap_h`,
/// and two more pixels would exceed it), unless that is below the 2-pixel minimum.
pub proof fn law_output_dims(cap_w: u32, cap_h: u32, target_h: u32)
    ensures
        ({
            let (w, h) = spec_output_dims(cap_w, cap_h, target_h);
            &&& (target_h == 0 || target_h >= cap_h) ==> w == cap_w && h == cap_h
            &&& 0 < target_h < cap_h ==> {
                &&& w % 2 == 0 && h % 2 == 0
                &&& w >= 2 && h >= 2
                &&& target_h >= 2 ==> h <= target_h && target_h < h + 2
                &&& target_h < 2 ==> h == 2
                &&& w == 2 || (w as int) * (cap_h as int) <= (cap_w as int) * (h as int)
                &&& (cap_w as int) * (h as int) < ((w as int) + 2) * (cap_h as int)
            }
        }),
{
    if 0 < target_h < cap_h {
        let oh = max_int(even_down(target_h as int), 2);
        let prod = (cap_w as int) * oh;
        let q = prod / (cap_h as int);
        let ow = max_int(even_down(q), 2);
        assert(oh <= cap_h);
        assert(prod >= 0) by (nonlinear_arith)
            requires
                prod == (cap_w as int) * oh,
                oh >= 0,
        ;
        vstd::arithmetic::div_mod::lemma_fundamental_div_mod(prod, cap_h as int);
        assert(q <= cap_w) by (nonlinear_arith)
            requires
                q == prod / (cap_h as int),
                prod == (cap_w as int) * oh,
                oh <= cap_h,
                cap_h > 0,
                oh >= 0,
        {
            vstd::arithmetic::div_mod::lemma_div_is_ordered(prod, (cap_w as int) * (cap_h as int), cap_h as int);
            vstd::arithmetic::div_mod::lemma_div_multiples_vanish(cap_w as int, cap_h as int);
        }
        assert(q >= 0);
        assert(ow * (cap_h as int) <= prod || ow == 2) by (nonlinear_arith)
            requires
                prod == (cap_h as int) * q + prod % (cap_h as int),
                0 <= prod % (cap_h as int),
                ow == max_int(q - q % 2, 2),
                0 <= q % 2 <= 1,
                cap_h > 0,
        ;
        assert(prod < (ow + 2) * (cap_h as int)) by (nonlinear_arith)
            requires
                prod == (cap_h as int) * q + prod % (cap_h as int),
                prod % (cap_h as int) < cap_h,
                ow >= q - q % 2,
                0 <= q % 2 <= 1,
                cap_h > 0,
        ;
    }
}

/// Packs two 32-bit values in one 64-bit attribute/// Packs two 32-bit values in one 64-bit attribute, `high` in the upper half
/// (Media Foundation's frame size and rate attributes).
pub fn pack2(high: u32, low: u32) -> (r: u64)
    ensures
        r == (high as int) * 0x1_0000_0000 + (low as int),
{
    let h: u64 = high as u64;
    let l: u64 = low as u64;
    assert(((h << 32u64) | l) == h * 0x1_0000_0000u64 + l) by (bit_vector)
        requires
            h < 0x1_0000_0000u64,
            l < 0x1_0000_0000u64,
    ;
    (h << 32u64) | l
}

/// Bytes of an NV12 picture: a full-size luma plane and a half-size chroma plane.
pub fn nv12_size(width: u32, height: u32) -> (r: u32)
    requires
        (width as int) * (height as int) + (width as int) * (height as int) / 2 <= u32::MAX,
    ensures
        r == (width as int) * (height as int) + (width as int) * (height as int) / 2,
{
    let a = width * height;
    a + a / 2
}

/// Height of a 320-pixel-wide thumbnail of a `sw`×`sh` screen, at least 1 (then
/// truncated to 32 bits).
pub fn thumb_height(sw: i32, sh: i32) -> (r: i32)
    requires
        sw > 0,
        sh > 0,
    ensures
        r == (max_int(320 * (sh as int) / (sw as int), 1)) as i32,
{
    let v: i64 = (320i64 * (sh as i64)) / (sw as i64);
    let m: i64 = if v > 1 {
        v
    } else {
        1
    };
    m as i32
}

/// Length of a span from `lo` to `hi` on screen, 0 when `hi` is before `lo`.
pub fn extent(lo: i32, hi: i32) -> (r: u32)
    requires
        i32::MIN <= hi - lo <= i32::MAX,
    ensures
        r == max_int(hi - lo, 0),
{
    let d = hi - lo;
    if d > 0 {
        d as u32
    } else {
        0
    }
}

// ---------------------------------------------------------------------------
// Audio formats
// ---------------------------------------------------------------------------

/// Channels the AAC encoder is fed: mono for mono sources, stereo otherwise.
pub fn target_channels(channels: u16) -> (r: u16)
    ensures
        r == if channels <= 1 {
            1u16
        } else {
            2u16
        },
{
    if channels <= 1 {
        1
    } else {
        2
    }
}

/// The AAC format closest to a device's native one: same rate, downmixed to mono or
/// stereo; None when the rate is not one the encoder takes (44100 or 48000 Hz).
pub fn aac_target_format(rate: u32, channels: u16) -> (r: Option<(u32, u16)>)
    ensures
        (rate == 44100 || rate == 48000) ==> r == Some(
            (
                rate,
                if channels <= 1 {
                    1u16
                } else {
                    2u16
                },
            ),
        ),
        !(rate == 44100 || rate == 48000) ==> r is None,
{
    if rate != 44100 && rate != 48000 {
        return None;
    }
    Some((rate, target_channels(channels)))
}

/// AAC bit rate for a channel count: 96 kbit/s mono, 128 kbit/s stereo (values the
/// encoder accepts).
pub fn aac_bitrate(channels: u16) -> (r: u32)
    ensures
        r == if channels <= 1 {
            96_000u32
        } else {
            128_000u32
        },
{
    if channels <= 1 {
        96_000
    } else {
        128_000
    }
}

/// Duration (ticks) of `frames` audio frames at `rate` Hz (rate 0 treated as 1).
pub fn packet_duration(frames: u32, rate: u32) -> (r: i64)
    ensures
        r == (frames as int) * 10_000_000 / max_int(rate as int, 1),
{
    let r64: i64 = if rate > 1 {
        rate as i64
    } else {
        1
    };
    assert((frames as int) * 10_000_000 <= i64::MAX) by (nonlinear_arith)
        requires
            frames <= u32::MAX,
    ;
    ((frames as i64) * 10_000_000) / r64
}

// ---------------------------------------------------------------------------
// Bit rate
// ---------------------------------------------------------------------------

/// The quality levels offered for recording.
#[derive(PartialEq, Eq, Structural, Clone, Copy, Debug)]
pub enum QualityTier {
    Low,
    Normal,
    High,
    VeryHigh,
    Ultra,
}

/// The quality level a setting names: "low", "normal", "veryhigh" and "ultra" name
/// their levels, and anything else (including "high") is the default, High.
pub open spec fn spec_quality_tier(q: Seq<char>) -> QualityTier {
    if q == seq!['l', 'o', 'w'] {
        QualityTier::Low
    } else if q == seq!['n', 'o', 'r', 'm', 'a', 'l'] {
        QualityTier::Normal
    } else if q == seq!['v', 'e', 'r', 'y', 'h', 'i', 'g', 'h'] {
        QualityTier::VeryHigh
    } else if q == seq!['u', 'l', 't', 'r', 'a'] {
        QualityTier::Ultra
    } else {
        QualityTier::High
    }
}

/// The quality level a setting string names (see `spec_quality_tier`).
pub fn quality_tier(quality: &str) -> (r: QualityTier)
    ensures
        r == spec_quality_tier(quality@),
{
    let q = crate::text::chars_of(quality);
    let low = ['l', 'o', 'w'];
    let normal = ['n', 'o', 'r', 'm', 'a', 'l'];
    let veryhigh = ['v', 'e', 'r', 'y', 'h', 'i', 'g', 'h'];
    let ultra = ['u', 'l', 't', 'r', 'a'];
    assert(low@ =~= seq!['l', 'o', 'w']);
    assert(normal@ =~= seq!['n', 'o', 'r', 'm', 'a', 'l']);
    assert(veryhigh@ =~= seq!['v', 'e', 'r', 'y', 'h', 'i', 'g', 'h']);
    assert(ultra@ =~= seq!['u', 'l', 't', 'r', 'a']);
    if crate::text::chars_eq(q.as_slice(), low.as_slice()) {
        QualityTier::Low
    } else if crate::text::chars_eq(q.as_slice(), normal.as_slice()) {
        QualityTier::Normal
    } else if crate::text::chars_eq(q.as_slice(), veryhigh.as_slice()) {
        QualityTier::VeryHigh
    } else if crate::text::chars_eq(q.as_slice(), ultra.as_slice()) {
        QualityTier::Ultra
    } else {
        QualityTier::High
    }
}

/// The encoder's bit rate: the user's own value when set (above 0), else the automatic
/// one computed from resolution, frame rate and quality.
pub fn resolve_bitrate(override_bps: u32, automatic_bps: u32) -> (r: u32)
    ensures
        r == if override_bps > 0 {
            override_bps
        } else {
            automatic_bps
        },
{
    if override_bps > 0 {
        override_bps
    } else {
        automatic_bps
    }
}

// ---------------------------------------------------------------------------
// Names
// ---------------------------------------------------------------------------

/// `Flashback_YYYY-MM-DD_HH-MM-SS.mp4`, each field zero-padded (the year to 4 digits,
/// the others to 2).
pub open spec fn spec_clip_filename(y: u16, mo: u16, d: u16, h: u16, mi: u16, s: u16) -> Seq<
    char,
> {
    seq!['F', 'l', 'a', 's', 'h', 'b', 'a', 'c', 'k', '_'] + zero_pad(decimal(y as nat), 4)
        + seq!['-'] + zero_pad(decimal(mo as nat), 2) + seq!['-'] + zero_pad(decimal(d as nat), 2)
        + seq!['_'] + zero_pad(decimal(h as nat), 2) + seq!['-'] + zero_pad(decimal(mi as nat), 2)
        + seq!['-'] + zero_pad(decimal(s as nat), 2) + seq!['.', 'm', 'p', '4']
}

/// File name of a clip recorded at the given local date and time.
pub fn clip_filename(y: u16, mo: u16, d: u16, h: u16, mi: u16, s: u16) -> (r: String)
    ensures
        r@ == spec_clip_filename(y, mo, d, h, mi, s),
{
    let mut v: Vec<char> = Vec::new();
    crate::text::append_chars(&mut v, &['F', 'l', 'a', 's', 'h', 'b', 'a', 'c', 'k', '_']);
    crate::text::push_padded_decimal(&mut v, y as u64, 4);
    v.push('-');
    crate::text::push_padded_decimal(&mut v, mo as u64, 2);
    v.push('-');
    crate::text::push_padded_decimal(&mut v, d as u64, 2);
    v.push('_');
    crate::text::push_padded_decimal(&mut v, h as u64, 2);
    v.push('-');
    crate::text::push_padded_decimal(&mut v, mi as u64, 2);
    v.push('-');
    crate::text::push_padded_decimal(&mut v, s as u64, 2);
    crate::text::append_chars(&mut v, &['.', 'm', 'p', '4']);
    proof {
        assert(v@ =~= spec_clip_filename(y, mo, d, h, mi, s));
    }
    crate::text::string_from_chars(v.as_slice())
}

/// Label of the monitor at `index` in the picker: "Pantalla" and its 1-based number.
pub fn monitor_label(index: usize) -> (r: String)
    requires
        index < u64::MAX,
    ensures
        r@ == seq!['P', 'a', 'n', 't', 'a', 'l', 'l', 'a', ' '] + decimal((index + 1) as nat),
{
    let mut v: Vec<char> = Vec::new();
    crate::text::append_chars(&mut v, &['P', 'a', 'n', 't', 'a', 'l', 'l', 'a', ' ']);
    crate::text::push_decimal(&mut v, (index as u64) + 1);
    proof {
        assert(v@ =~= seq!['P', 'a', 'n', 't', 'a', 'l', 'l', 'a', ' '] + decimal(
            (index + 1) as nat,
        ));
    }
    crate::text::string_from_chars(v.as_slice())
}

} // verus!
