//! Audio capture decisions: the MMDevice endpoint id behind a WinRT device id, and the
//! clock of the mixer that sums the system and microphone sources into one stereo track
//! (where each block goes, and which part of the sum is ready to be emitted). The
//! samples themselves are summed in floating point by the caller.
use vstd::prelude::*;
use crate::media::{max_int, min_int, trunc_div};
use crate::text::{
    before_first, before_first_chars, chars_of, find, find_chars, lemma_find_from, occurs_at,
    string_from_chars, sub_chars,
};

verus! {

/// The MMDevice endpoint id (`{0.0.1.00000000}.{guid}`) inside a WinRT device id
/// (`\\?\SWD#MMDEVAPI#{0.0.1.00000000}.{guid}#{iface}`): the text after the first
/// `MMDEVAPI#` up to the next `#`; the id itself when it holds no `MMDEVAPI#` (it is
/// then already an endpoint id).
pub open spec fn spec_mmdevice_id(id: Seq<char>) -> Seq<char> {
    let mark = "MMDEVAPI#"@;
    match find(id, mark) {
        Some(p) => before_first(id.subrange(p + mark.len(), id.len() as int), '#'),
        None => id,
    }
}

/// The MMDevice endpoint id of a device id from the WinRT device list (see
/// `spec_mmdevice_id`).
pub fn mmdevice_id_from_winrt(id: &str) -> (r: String)
    ensures
        r@ == spec_mmdevice_id(id@),
{
    let v = chars_of(id);
    let mark = chars_of("MMDEVAPI#");
    match find_chars(v.as_slice(), mark.as_slice()) {
        Some(p) => {
            proof {
                lemma_find_from(v@, mark@, 0);
                assert(find(v@, mark@) == Some(p as int));
                assert(occurs_at(v@, mark@, p as int));
            }
            let n = v.len();
            let rest = sub_chars(v.as_slice(), p + mark.len(), n);
            let head = before_first_chars(rest.as_slice(), '#');
            string_from_chars(head.as_slice())
        },
        None => string_from_chars(v.as_slice()),
    }
}


// ---------------------------------------------------------------------------
// The mixer's clock
// ---------------------------------------------------------------------------

/// How long the mixer holds back the sum so the other source can add its part (150 ms
/// in 100 ns ticks).
pub const MIX_LATENCY: i64 = 1_500_000;

/// The value fits in an `i64`.
pub open spec fn fits(x: int) -> bool {
    i64::MIN <= x <= i64::MAX
}


/// The number of output frames a block of `pcm_len` bytes of 16-bit PCM with `src_ch`
/// channels at `src_rate` Hz becomes at `out_rate` Hz (rates and channels of 0 count as
/// 1): the same number at equal rates, else rescaled, rounding toward zero.
pub open spec fn spec_block_frames(pcm_len: int, src_rate: u32, src_ch: u16, out_rate: int) -> int {
    let ch = max_int(src_ch as int, 1);
    let in_frames = pcm_len / (ch * 2);
    let sr = max_int(src_rate as int, 1);
    if in_frames == 0 {
        0
    } else if sr == out_rate {
        in_frames
    } else {
        max_int(trunc_div(in_frames * out_rate, sr), 0)
    }
}

/// The clock of the mixer. Positions are frames at the output rate, counted from the
/// time of the first block (`base`). Each source has a cursor: within a continuous run
/// a block goes right after the previous one, and only a jump beyond the tolerance
/// (about 10 ms) resynchronises it to the block's timestamp, so that timestamp jitter
/// does not open gaps or overlaps. `acc_start` is the first frame not yet emitted.
pub struct MixClock {
    pub rate: i64,
    pub tolerance: i64,
    pub base: Option<i64>,
    pub max_time: i64,
    pub sys_next: i64,
    pub mic_next: i64,
    pub acc_start: i64,
}

impl MixClock {
    /// The clock is consistent: a positive rate and tolerance, cursors unset
    /// (`i64::MIN`) or not negative, nothing emitted before the start.
    pub open spec fn wf(&self) -> bool {
        &&& 1 <= self.rate <= u32::MAX
        &&& self.tolerance == max_int(self.rate / 100, 1)
        &&& self.sys_next == i64::MIN || self.sys_next >= 0
        &&& self.mic_next == i64::MIN || self.mic_next >= 0
        &&& self.acc_start >= 0
    }

    /// The clock of a mix at `out_rate` Hz (0 counts as 1), before any block.
    pub fn new(out_rate: u32) -> (c: MixClock)
        ensures
            c.wf(),
            c.rate == max_int(out_rate as int, 1),
            c.base is None,
            c.max_time == i64::MIN,
            c.sys_next == i64::MIN,
            c.mic_next == i64::MIN,
            c.acc_start == 0,
    {
        let rate: i64 = if out_rate > 1 {
            out_rate as i64
        } else {
            1
        };
        let t = rate / 100;
        MixClock {
            rate,
            tolerance: if t > 1 {
                t
            } else {
                1
            },
            base: None,
            max_time: i64::MIN,
            sys_next: i64::MIN,
            mic_next: i64::MIN,
            acc_start: 0,
        }
    }

    /// The frame a block at time `t` belongs at by its timestamp (not before frame 0).
    pub open spec fn expected(&self, t: i64) -> int {
        let b = match self.base {
            Some(b) => b as int,
            None => t as int,
        };
        max_int(trunc_div((t - b) * self.rate, 10_000_000), 0)
    }

    /// Where a block at `t` from a source whose cursor is `cur` starts: at the cursor
    /// within a continuous run, at its timestamp's frame when the source has no cursor
    /// yet or is off by more than the tolerance.
    pub open spec fn start_of(&self, t: i64, cur: i64) -> int {
        let e = self.expected(t);
        if cur == i64::MIN || (if e - cur >= 0 {
            e - cur
        } else {
            cur - e
        }) > self.tolerance {
            e
        } else {
            cur as int
        }
    }

    /// The block's end time: the base plus the ticks of the source's new cursor.
    pub open spec fn end_time(&self, t: i64, cur: i64, frames: int) -> int {
        let b = match self.base {
            Some(b) => b as int,
            None => t as int,
        };
        b + trunc_div((self.start_of(t, cur) + frames) * 10_000_000, self.rate as int)
    }

    /// Placing a block at `t` of `frames` frames computes without overflow (where the
    /// mixer's `i64` arithmetic would overflow).
    pub open spec fn place_fits(&self, t: i64, is_mic: bool, frames: int) -> bool {
        let b = match self.base {
            Some(b) => b as int,
            None => t as int,
        };
        let cur = if is_mic {
            self.mic_next
        } else {
            self.sys_next
        };
        &&& fits(t - b)
        &&& fits((t - b) * self.rate)
        &&& fits(self.start_of(t, cur) + frames)
        &&& fits((self.start_of(t, cur) + frames) * 10_000_000)
        &&& fits(self.end_time(t, cur, frames))
    }

    /// Whether placing a block computes without overflow (see `place_fits`).
    pub fn can_place(&self, t: i64, is_mic: bool, frames: u64) -> (r: bool)
        requires
            self.wf(),
        ensures
            r == self.place_fits(t, is_mic, frames as int),
    {
        let b: i128 = match self.base {
            Some(b) => b as i128,
            None => t as i128,
        };
        let d: i128 = t as i128 - b;
        if d < i64::MIN as i128 || d > i64::MAX as i128 {
            return false;
        }
        assert(-0x1_0000_0000_0000_0000_0000_0000 <= d * (self.rate as i128) <= 0x1_0000_0000_0000_0000_0000_0000)
            by (nonlinear_arith)
            requires
                i64::MIN <= d <= i64::MAX,
                1 <= self.rate <= u32::MAX,
        ;
        let e1: i128 = d * (self.rate as i128);
        if e1 < i64::MIN as i128 || e1 > i64::MAX as i128 {
            return false;
        }
        let q: i128 = e1 / 10_000_000;
        let e: i128 = if q > 0 { q } else { 0 };
        let cur: i64 = if is_mic { self.mic_next } else { self.sys_next };
        let off: i128 = if e - cur as i128 >= 0 { e - cur as i128 } else { cur as i128 - e };
        let start: i128 = if cur == i64::MIN || off > self.tolerance as i128 { e } else { cur as i128 };
        proof {
            assert(e == self.expected(t));
            assert(start == self.start_of(t, cur));
        }
        let nc: i128 = start + frames as i128;
        if nc < i64::MIN as i128 || nc > i64::MAX as i128 {
            return false;
        }
        let t2: i128 = nc * 10_000_000;
        if t2 < i64::MIN as i128 || t2 > i64::MAX as i128 {
            return false;
        }
        let end_t: i128 = b + t2 / (self.rate as i128);
        proof {
            assert(end_t == self.end_time(t, cur, frames as int));
        }
        i64::MIN as i128 <= end_t && end_t <= i64::MAX as i128
    }

    /// Places a block of `frames` output frames that arrived with timestamp `t` from
    /// the microphone (`is_mic`) or the system: returns its first frame (see
    /// `start_of`). The source's cursor moves to the frame after the block, the first
    /// block sets the base, and the latest end time is kept.
    pub fn place(&mut self, t: i64, is_mic: bool, frames: u64) -> (start: i64)
        requires
            old(self).wf(),
            old(self).place_fits(t, is_mic, frames as int),
        ensures
            final(self).wf(),
            start == old(self).start_of(t, if is_mic { old(self).mic_next } else { old(self).sys_next }),
            start >= 0,
            final(self).base == Some(
                match old(self).base {
                    Some(b) => b,
                    None => t,
                },
            ),
            is_mic ==> final(self).mic_next == start + frames && final(self).sys_next == old(self).sys_next,
            !is_mic ==> final(self).sys_next == start + frames && final(self).mic_next == old(self).mic_next,
            final(self).max_time == max_int(
                old(self).max_time as int,
                old(self).end_time(t, if is_mic { old(self).mic_next } else { old(self).sys_next }, frames as int),
            ),
            final(self).rate == old(self).rate,
            final(self).tolerance == old(self).tolerance,
            final(self).acc_start == old(self).acc_start,
    {
        let ghost before = *self;
        let b: i64 = match self.base {
            Some(b) => b,
            None => t,
        };
        self.base = Some(b);
        let q: i64 = ((t - b) * self.rate) / 10_000_000;
        let expected: i64 = if q > 0 { q } else { 0 };
        let cur: i64 = if is_mic { self.mic_next } else { self.sys_next };
        let start: i64 = if cur == i64::MIN {
            expected
        } else {
            let off: i64 = if expected - cur >= 0 { expected - cur } else { cur - expected };
            if off > self.tolerance { expected } else { cur }
        };
        proof {
            assert(expected == before.expected(t));
            assert(start == before.start_of(t, cur));
        }
        let next: i64 = start + frames as i64;
        if is_mic {
            self.mic_next = next;
        } else {
            self.sys_next = next;
        }
        let end_t: i64 = b + (next * 10_000_000) / self.rate;
        proof {
            assert(end_t == before.end_time(t, cur, frames as int));
        }
        if end_t > self.max_time {
            self.max_time = end_t;
        }
        start
    }

    /// The frame up to which the sum may be emitted while the mixer runs: the latest
    /// end time held back by `MIX_LATENCY`, as a frame counted from the base.
    pub open spec fn head_index(&self) -> int {
        let b = match self.base {
            Some(b) => b as int,
            None => 0,
        };
        max_int(trunc_div((self.max_time - MIX_LATENCY - b) * self.rate, 10_000_000), 0)
    }

    /// How many frames are emitted now, with `acc_frames` frames summed so far: while
    /// running, those before the head; when stopping, every summed frame (the final
    /// flush loses nothing).
    pub open spec fn emit_count(&self, stopping: bool, acc_frames: int) -> int {
        if stopping {
            acc_frames
        } else {
            min_int(max_int(self.head_index() - self.acc_start, 0), acc_frames)
        }
    }

    /// Emitting computes without overflow (where the mixer's `i64` arithmetic would
    /// overflow).
    pub open spec fn emit_fits(&self, stopping: bool, acc_frames: int) -> bool {
        let b = match self.base {
            Some(b) => b as int,
            None => 0,
        };
        let head = self.max_time - MIX_LATENCY;
        let n = self.emit_count(stopping, acc_frames);
        self.base is Some ==> {
            &&& (!stopping ==> {
                &&& fits(head)
                &&& fits(head - b)
                &&& fits((head - b) * self.rate)
            })
            &&& (n > 0 ==> {
                &&& fits(self.acc_start * 10_000_000)
                &&& fits(b + trunc_div(self.acc_start * 10_000_000, self.rate as int))
                &&& fits(n * 10_000_000)
                &&& fits(self.acc_start + n)
            })
        }
    }

    /// Whether emitting computes without overflow (see `emit_fits`).
    pub fn can_emit(&self, stopping: bool, acc_frames: u64) -> (r: bool)
        requires
            self.wf(),
        ensures
            r == self.emit_fits(stopping, acc_frames as int),
    {
        let b: i128 = match self.base {
            Some(b) => b as i128,
            None => return true,
        };
        let n: i128 = if stopping {
            acc_frames as i128
        } else {
            let head: i128 = self.max_time as i128 - MIX_LATENCY as i128;
            if head < i64::MIN as i128 {
                return false;
            }
            let d: i128 = head - b;
            if d < i64::MIN as i128 || d > i64::MAX as i128 {
                return false;
            }
            assert(-0x1_0000_0000_0000_0000_0000_0000 <= d * (self.rate as i128) <= 0x1_0000_0000_0000_0000_0000_0000)
                by (nonlinear_arith)
                requires
                    i64::MIN <= d <= i64::MAX,
                    1 <= self.rate <= u32::MAX,
            ;
            let h: i128 = d * (self.rate as i128);
            if h < i64::MIN as i128 || h > i64::MAX as i128 {
                return false;
            }
            let q: i128 = h / 10_000_000;
            let hi: i128 = if q > 0 { q } else { 0 };
            let w: i128 = if hi - self.acc_start as i128 > 0 { hi - self.acc_start as i128 } else { 0 };
            proof {
                assert(hi == self.head_index());
            }
            if w < acc_frames as i128 { w } else { acc_frames as i128 }
        };
        proof {
            assert(n == self.emit_count(stopping, acc_frames as int));
        }
        if n <= 0 {
            return true;
        }
        let t1: i128 = self.acc_start as i128 * 10_000_000;
        if t1 > i64::MAX as i128 {
            return false;
        }
        let tm: i128 = b + t1 / (self.rate as i128);
        if tm < i64::MIN as i128 || tm > i64::MAX as i128 {
            return false;
        }
        if n * 10_000_000 > i64::MAX as i128 {
            return false;
        }
        self.acc_start as i128 + n <= i64::MAX as i128
    }

    /// Emits what is ready of the sum, with `acc_frames` frames summed so far (when
    /// stopping, all of them): none before the first block or when nothing is ready;
    /// else the number of frames to take from the front of the sum, their time (the
    /// base plus the ticks of the first frame not yet emitted) and their duration. The emitted frames are consumed.
    pub fn emit(&mut self, stopping: bool, acc_frames: u64) -> (r: Option<(u64, i64, i64)>)
        requires
            old(self).wf(),
            old(self).emit_fits(stopping, acc_frames as int),
        ensures
            final(self).wf(),
            final(self).base == old(self).base,
            final(self).max_time == old(self).max_time,
            final(self).sys_next == old(self).sys_next,
            final(self).mic_next == old(self).mic_next,
            final(self).rate == old(self).rate,
            final(self).tolerance == old(self).tolerance,
            old(self).base is None || old(self).emit_count(stopping, acc_frames as int) <= 0 ==> r is None
                && final(self).acc_start == old(self).acc_start,
            old(self).base matches Some(b) ==> old(self).emit_count(stopping, acc_frames as int) > 0 ==> {
                let n = old(self).emit_count(stopping, acc_frames as int);
                &&& r == Some(
                    (
                        n as u64,
                        (b + trunc_div(old(self).acc_start * 10_000_000, old(self).rate as int)) as i64,
                        trunc_div(n * 10_000_000, old(self).rate as int) as i64,
                    ),
                )
                &&& final(self).acc_start == old(self).acc_start + n
            },
            old(self).base is Some && stopping && acc_frames > 0 ==> (r matches Some((n, _, _))
                && n == acc_frames),
    {
        let b: i64 = match self.base {
            Some(b) => b,
            None => return None,
        };
        let n: i64 = if stopping {
            acc_frames as i64
        } else {
            let q: i64 = ((self.max_time - MIX_LATENCY - b) * self.rate) / 10_000_000;
            let hi: i64 = if q > 0 { q } else { 0 };
            let want: i64 = if hi - self.acc_start > 0 { hi - self.acc_start } else { 0 };
            proof {
                assert(hi == self.head_index());
            }
            if (want as u64) < acc_frames { want } else { acc_frames as i64 }
        };
        proof {
            assert(n == self.emit_count(stopping, acc_frames as int));
        }
        if n <= 0 {
            return None;
        }
        let time: i64 = b + (self.acc_start * 10_000_000) / self.rate;
        let dur: i64 = (n * 10_000_000) / self.rate;
        self.acc_start = self.acc_start + n;
        Some((n as u64, time, dur))
    }
}

/// Within a continuous run a source's blocks follow each other: a block whose
/// timestamp is within the tolerance of the source's cursor starts exactly at the
/// cursor (no gap, no overlap, whatever the timestamp jitter); a block further off, or
/// the source's first, starts at its timestamp's frame, counted from the base (so
/// placement never drifts from the shared clock).
pub proof fn law_mix_runs_are_contiguous(c: MixClock, t: i64, cur: i64)
    requires
        c.wf(),
    ensures
        cur != i64::MIN && -c.tolerance <= c.expected(t) - cur <= c.tolerance ==> c.start_of(t, cur) == cur,
        (cur == i64::MIN || c.expected(t) - cur > c.tolerance || cur - c.expected(t) > c.tolerance) ==> c.start_of(
            t,
            cur,
        ) == c.expected(t),
{
}

/// The output frames of a block (see `spec_block_frames`).
pub fn block_frames(pcm_len: u64, src_rate: u32, src_ch: u16, out_rate: u32) -> (r: u64)
    requires
        pcm_len <= i64::MAX,
        (pcm_len / 2) * max_int(out_rate as int, 1) <= i64::MAX,
    ensures
        r == spec_block_frames(pcm_len as int, src_rate, src_ch, max_int(out_rate as int, 1)),
{
    let ch: u64 = if src_ch > 1 { src_ch as u64 } else { 1 };
    let in_frames: u64 = pcm_len / (ch * 2);
    if in_frames == 0 {
        return 0;
    }
    let sr: i64 = if src_rate > 1 { src_rate as i64 } else { 1 };
    let orate: i64 = if out_rate > 1 { out_rate as i64 } else { 1 };
    if sr == orate {
        return in_frames;
    }
    assert(in_frames * orate <= (pcm_len / 2) * orate) by (nonlinear_arith)
        requires
            in_frames as int == pcm_len as int / (ch as int * 2),
            ch >= 1,
            orate >= 1,
    ;
    let q: i64 = ((in_frames as i64) * orate) / sr;
    if q > 0 {
        q as u64
    } else {
        0
    }
}


/// Blocks in time order: `order` lists each index of `times` once, with times that
/// never decrease along it, blocks of equal time in the order they were drained.
pub open spec fn is_time_order(times: Seq<i64>, order: Seq<usize>) -> bool {
    &&& order.len() == times.len()
    &&& forall|i: int| 0 <= i < order.len() ==> (#[trigger] order[i] as int) < times.len()
    &&& forall|i: int, j: int| 0 <= i < j < order.len() ==> order[i] != order[j]
    &&& forall|i: int, j: int| 0 <= i < j < order.len() ==> times[order[i] as int] <= times[order[j] as int]
    &&& forall|i: int, j: int|
        0 <= i < j < order.len() && times[order[i] as int] == times[order[j] as int] ==> order[i]
            < order[j]
}

/// The order in which the mixer places the blocks drained from both sources: by
/// timestamp, a stable sort (see `is_time_order`).
pub fn order_by_time(times: &[i64]) -> (order: Vec<usize>)
    ensures
        is_time_order(times@, order@),
{
    let n = times.len();
    let mut out: Vec<usize> = Vec::new();
    let mut k: usize = 0;
    while k < n
        invariant
            k <= n == times@.len(),
            out@.len() == k,
            forall|i: int| 0 <= i < out@.len() ==> (#[trigger] out@[i] as int) < k,
            forall|i: int, j: int| 0 <= i < j < out@.len() ==> out@[i] != out@[j],
            forall|i: int, j: int|
                0 <= i < j < out@.len() ==> times@[out@[i] as int] <= times@[out@[j] as int],
            forall|i: int, j: int|
                0 <= i < j < out@.len() && times@[out@[i] as int] == times@[out@[j] as int]
                    ==> out@[i] < out@[j],
        decreases n - k,
    {
        let key = times[k];
        let mut p: usize = 0;
        while p < out.len() && times[out[p]] <= key
            invariant
                p <= out@.len(),
                k < n == times@.len(),
                key == times@[k as int],
                forall|i: int| 0 <= i < out@.len() ==> (#[trigger] out@[i] as int) < k,
                forall|q: int| 0 <= q < p ==> times@[(#[trigger] out@[q]) as int] <= key,
            decreases out@.len() - p,
        {
            p = p + 1;
        }
        let ghost before = out@;
        proof {
            if p < before.len() {
                assert(times@[before[p as int] as int] > key);
            }
        }
        out.insert(p, k);
        proof {
            assert forall|i: int, j: int| 0 <= i < j < out@.len() implies times@[out@[i] as int]
                <= times@[out@[j] as int] by {
                if i < p && j == p {
                } else if i < p && j > p {
                    assert(out@[j] == before[j - 1]);
                } else if i == p && j > p {
                    assert(out@[j] == before[j - 1]);
                    assert(times@[before[p as int] as int] <= times@[before[j - 1] as int] || j - 1 == p);
                } else if i > p {
                    assert(out@[i] == before[i - 1] && out@[j] == before[j - 1]);
                }
            }
            assert forall|i: int, j: int|
                0 <= i < j < out@.len() && times@[out@[i] as int] == times@[out@[j] as int]
                    implies out@[i] < out@[j] by {
                if i < p && j == p {
                } else if i < p && j > p {
                    assert(out@[j] == before[j - 1]);
                } else if i == p && j > p {
                    assert(out@[j] == before[j - 1]);
                    assert(times@[before[j - 1] as int] >= times@[before[p as int] as int]);
                } else if i > p {
                    assert(out@[i] == before[i - 1] && out@[j] == before[j - 1]);
                }
            }
            assert forall|i: int, j: int| 0 <= i < j < out@.len() implies out@[i] != out@[j] by {
                if i < p && j == p {
                } else if i < p && j > p {
                    assert(out@[j] == before[j - 1]);
                } else if i == p && j > p {
                    assert(out@[j] == before[j - 1]);
                } else if i > p {
                    assert(out@[i] == before[i - 1] && out@[j] == before[j - 1]);
                }
            }
            assert forall|i: int| 0 <= i < out@.len() implies (#[trigger] out@[i] as int) < k + 1 by {
                if i < p {
                } else if i > p {
                    assert(out@[i] == before[i - 1]);
                }
            }
        }
        k = k + 1;
    }
    out
}


// ---------------------------------------------------------------------------
// Capture formats
// ---------------------------------------------------------------------------

/// A device mix format is floating point: the IEEE float tag (3), or the extensible
/// tag (`0xFFFE`) with the IEEE float sub-format.
pub fn is_float_format(tag: u16, float_subformat: bool) -> (r: bool)
    ensures
        r == (tag == 3 || (tag == 0xFFFE && float_subformat)),
{
    tag == 3 || (tag == 0xFFFE && float_subformat)
}

/// How a captured packet becomes 16-bit PCM.
#[derive(PartialEq, Eq, Structural, Clone, Copy, Debug)]
pub enum Conversion {
    /// A silent packet: this many zero bytes.
    Silence { bytes: u64 },
    /// 32-bit float samples, converted.
    FromFloat,
    /// Already 16-bit PCM, copied.
    Copy,
    /// Another integer width: nothing is produced (the track records silence).
    Unsupported,
}

/// The conversion of a captured packet of `frames` frames of `channels` channels:
/// silence for a packet flagged silent, else by the sample format.
pub fn conversion(silent: bool, is_float: bool, bits: u16, frames: u32, channels: u16) -> (r: Conversion)
    ensures
        r == if silent {
            Conversion::Silence { bytes: (frames * channels * 2) as u64 }
        } else if is_float {
            Conversion::FromFloat
        } else if bits == 16 {
            Conversion::Copy
        } else {
            Conversion::Unsupported
        },
{
    if silent {
        assert((frames as int) * (channels as int) * 2 <= u64::MAX) by (nonlinear_arith)
            requires
                frames <= u32::MAX,
                channels <= u16::MAX,
        ;
        Conversion::Silence { bytes: (frames as u64) * (channels as u64) * 2 }
    } else if is_float {
        Conversion::FromFloat
    } else if bits == 16 {
        Conversion::Copy
    } else {
        Conversion::Unsupported
    }
}

/// The 16-bit PCM input the AAC encoder is given: block alignment and bytes per second.
pub fn pcm_input_format(sample_rate: u32, channels: u16) -> (r: (u32, u32))
    requires
        (sample_rate as int) * (channels as int) * 2 <= u32::MAX,
    ensures
        r.0 == channels * 2,
        r.1 == sample_rate * channels * 2,
{
    let ch = channels as u32;
    assert(ch * 2 <= (sample_rate as int) * (channels as int) * 2 || sample_rate == 0) by (nonlinear_arith)
        requires
            ch == channels,
    ;
    let align: u32 = ch * 2;
    let per_second: u32 = sample_rate * ch * 2;
    (align, per_second)
}

/// The size of the output buffer given to the AAC encoder: as it asks, at least 4 KiB.
pub fn aac_output_size(requested: u32) -> (r: u32)
    ensures
        r == max_int(requested as int, 4096),
{
    if requested > 4096 {
        requested
    } else {
        4096
    }
}

/// An output type of the AAC encoder: channels, sample rate, payload type and bytes
/// per second, as it lists them.
pub open spec fn aac_type_fits(t: (u32, u32, u32, u32), sample_rate: u32, channels: u16) -> bool {
    t.0 == channels && t.1 == sample_rate && t.2 == 0
}

/// The first listed type from `i` on that fits the format (raw AAC, payload type 0).
pub open spec fn first_fitting_from(ts: Seq<(u32, u32, u32, u32)>, sample_rate: u32, channels: u16, i: int) -> Option<int>
    decreases ts.len() - i,
{
    if i < 0 || i >= ts.len() {
        None
    } else if aac_type_fits(ts[i], sample_rate, channels) {
        Some(i)
    } else {
        first_fitting_from(ts, sample_rate, channels, i + 1)
    }
}

/// The first listed type from `i` on that fits the format at exactly `bytes` per second.
pub open spec fn first_exact_from(ts: Seq<(u32, u32, u32, u32)>, sample_rate: u32, channels: u16, bytes: u32, i: int) -> Option<int>
    decreases ts.len() - i,
{
    if i < 0 || i >= ts.len() {
        None
    } else if aac_type_fits(ts[i], sample_rate, channels) && ts[i].3 == bytes {
        Some(i)
    } else {
        first_exact_from(ts, sample_rate, channels, bytes, i + 1)
    }
}

/// The AAC output type to set (the encoder only takes one of those it lists, as
/// listed): the first that fits the format at the wanted bit rate, else the first that
/// fits it; none when none does.
pub fn pick_aac_type(types: &[(u32, u32, u32, u32)], sample_rate: u32, channels: u16, bitrate: u32) -> (r: Option<usize>)
    ensures
        match first_exact_from(types@, sample_rate, channels, bitrate / 8, 0) {
            Some(i) => r == Some(i as usize),
            None => match first_fitting_from(types@, sample_rate, channels, 0) {
                Some(i) => r == Some(i as usize),
                None => r is None,
            },
        },
{
    let want = bitrate / 8;
    let mut chosen: Option<usize> = None;
    let mut i: usize = 0;
    while i < types.len()
        invariant
            i <= types@.len(),
            want == bitrate / 8,
            chosen is None ==> first_fitting_from(types@, sample_rate, channels, 0) == first_fitting_from(
                types@,
                sample_rate,
                channels,
                i as int,
            ),
            chosen matches Some(c) ==> first_fitting_from(types@, sample_rate, channels, 0) == Some(c as int),
            first_exact_from(types@, sample_rate, channels, want, 0) == first_exact_from(
                types@,
                sample_rate,
                channels,
                want,
                i as int,
            ),
        decreases types@.len() - i,
    {
        let t = types[i];
        if t.0 == channels as u32 && t.1 == sample_rate && t.2 == 0 {
            if t.3 == want {
                return Some(i);
            }
            if chosen.is_none() {
                chosen = Some(i);
            }
        }
        i = i + 1;
    }
    chosen
}

} // verus!
