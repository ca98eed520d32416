//! The instant-replay ring buffer: encoded video and audio packets kept for the last
//! `seconds`, trimmed so that a saved clip can always start on a keyframe, and the
//! rules by which a buffer is turned into the samples of an MP4.
use vstd::prelude::*;
use std::collections::VecDeque;
use crate::media::{aac_bitrate, max_int};
use crate::h264::{extract_param_sets, has_idr, is_keyframe, param_sets};

verus! {

/// One encoded packet: its bytes, time and duration (ticks), and whether it is a
/// keyframe.
pub struct Packet {
    pub data: Vec<u8>,
    pub time: i64,
    pub dur: i64,
    pub key: bool,
}

impl Packet {
    /// A copy of the packet.
    pub fn duplicate(&self) -> (p: Packet)
        ensures
            p.data@ == self.data@,
            p.time == self.time,
            p.dur == self.dur,
            p.key == self.key,
    {
        Packet { data: self.data.clone(), time: self.time, dur: self.dur, key: self.key }
    }
}

/// `s` without its leading packets that are at or before `cutoff`.
pub open spec fn drop_stale(s: Seq<Packet>, cutoff: int) -> Seq<Packet>
    decreases s.len(),
{
    if s.len() > 0 && s[0].time <= cutoff {
        drop_stale(s.drop_first(), cutoff)
    } else {
        s
    }
}

/// Index of the first packet after `cutoff`, scanning from `i` (the length if none).
pub open spec fn stale_end_from(s: Seq<Packet>, cutoff: int, i: int) -> int
    decreases s.len() - i,
    when 0 <= i <= s.len()
{
    if i < s.len() && s[i].time <= cutoff {
        stale_end_from(s, cutoff, i + 1)
    } else {
        i
    }
}

/// Length of the leading run of packets at or before `cutoff`.
pub open spec fn stale_end(s: Seq<Packet>, cutoff: int) -> int {
    stale_end_from(s, cutoff, 0)
}

/// Index of the last keyframe among the first `m` packets, or 0 if there is none.
pub open spec fn last_key_before(s: Seq<Packet>, m: int) -> int
    decreases m,
{
    if m <= 0 {
        0
    } else if s[m - 1].key {
        m - 1
    } else {
        last_key_before(s, m - 1)
    }
}

/// Where the video ring is cut: at the last keyframe that is at or before the window's
/// start within the leading stale run, so that the kept packets start on a keyframe.
pub open spec fn trim_point(s: Seq<Packet>, cutoff: int) -> int {
    last_key_before(s, stale_end(s, cutoff))
}

proof fn lemma_stale_end_from(s: Seq<Packet>, cutoff: int, i: int)
    requires
        0 <= i <= s.len(),
        forall|j: int| 0 <= j < i ==> s[j].time <= cutoff,
    ensures
        i <= stale_end_from(s, cutoff, i) <= s.len(),
        forall|j: int| 0 <= j < stale_end_from(s, cutoff, i) ==> s[j].time <= cutoff,
        stale_end_from(s, cutoff, i) < s.len() ==> s[stale_end_from(s, cutoff, i)].time > cutoff,
    decreases s.len() - i,
{
    if i < s.len() && s[i].time <= cutoff {
        lemma_stale_end_from(s, cutoff, i + 1);
    }
}

/// The leading stale run: every packet before its end is at or before the cutoff,
/// and the packet at its end (if any) is after it.
pub proof fn lemma_stale_end(s: Seq<Packet>, cutoff: int)
    ensures
        0 <= stale_end(s, cutoff) <= s.len(),
        forall|j: int| 0 <= j < stale_end(s, cutoff) ==> s[j].time <= cutoff,
        stale_end(s, cutoff) < s.len() ==> s[stale_end(s, cutoff)].time > cutoff,
{
    lemma_stale_end_from(s, cutoff, 0);
}

/// The cut: within the stale run, a keyframe (or 0), with no keyframe after it in
/// the run.
pub proof fn lemma_last_key_before(s: Seq<Packet>, m: int)
    requires
        0 <= m <= s.len(),
    ensures
        0 <= last_key_before(s, m),
        m > 0 ==> last_key_before(s, m) < m,
        m == 0 ==> last_key_before(s, m) == 0,
        last_key_before(s, m) > 0 ==> s[last_key_before(s, m)].key,
        forall|j: int| last_key_before(s, m) < j < m ==> !#[trigger] s[j].key,
    decreases m,
{
    if m > 0 && !s[m - 1].key {
        lemma_last_key_before(s, m - 1);
    }
}

/// The audio packets of one track in the ring. AAC packets stand alone, so the track
/// is trimmed by time only.
pub struct AudioTrackBuf {
    pub packets: VecDeque<Packet>,
    pub sample_rate: u32,
    pub channels: u16,
    pub bitrate: u32,
    pub user_data: Vec<u8>,
    pub payload_type: u32,
    pub window_ns: i64,
}

impl AudioTrackBuf {
    /// An empty track with the given format and window.
    pub fn new(sample_rate: u32, channels: u16, bitrate: u32, window_ns: i64) -> (t: AudioTrackBuf)
        ensures
            t.packets@.len() == 0,
            t.sample_rate == sample_rate,
            t.channels == channels,
            t.bitrate == bitrate,
            t.user_data@.len() == 0,
            t.payload_type == 0,
            t.window_ns == window_ns,
    {
        AudioTrackBuf {
            packets: VecDeque::new(),
            sample_rate,
            channels,
            bitrate,
            user_data: Vec::new(),
            payload_type: 0,
            window_ns,
        }
    }

    /// Appends a packet, then drops the leading packets that are a whole window older
    /// than it (at or before its time minus the window).
    pub fn push(&mut self, data: Vec<u8>, time: i64, dur: i64)
        requires
            i64::MIN <= time - old(self).window_ns <= i64::MAX,
        ensures
            final(self).packets@ == drop_stale(
                old(self).packets@.push(Packet { data, time, dur, key: false }),
                time - old(self).window_ns,
            ),
            final(self).sample_rate == old(self).sample_rate,
            final(self).channels == old(self).channels,
            final(self).bitrate == old(self).bitrate,
            final(self).user_data == old(self).user_data,
            final(self).payload_type == old(self).payload_type,
            final(self).window_ns == old(self).window_ns,
    {
        self.packets.push_back(Packet { data, time, dur, key: false });
        let cutoff = time - self.window_ns;
        let ghost all = self.packets@;
        loop
            invariant
                drop_stale(all, cutoff as int) == drop_stale(self.packets@, cutoff as int),
                self.sample_rate == old(self).sample_rate,
                self.channels == old(self).channels,
                self.bitrate == old(self).bitrate,
                self.user_data == old(self).user_data,
                self.payload_type == old(self).payload_type,
                self.window_ns == old(self).window_ns,
            ensures
                drop_stale(all, cutoff as int) == self.packets@,
            decreases self.packets@.len(),
        {
            if self.packets.len() == 0 {
                break;
            }
            if self.packets[0].time <= cutoff {
                let ghost before = self.packets@;
                let _ = self.packets.pop_front();
                assert(self.packets@ =~= before.drop_first());
            } else {
                break;
            }
        }
    }
}

/// A snapshot of one audio track, ready to be written to an MP4 without holding the
/// ring.
pub struct AudioMuxTrack {
    pub packets: Vec<Packet>,
    pub sample_rate: u32,
    pub channels: u16,
    pub bitrate: u32,
    pub user_data: Vec<u8>,
    pub payload_type: u32,
}

/// Copies of the packets of `q`, in order.
fn copy_packets(q: &VecDeque<Packet>, from: usize) -> (out: Vec<Packet>)
    requires
        from <= q@.len(),
    ensures
        out@.len() == q@.len() - from,
        forall|k: int|
            0 <= k < out@.len() ==> {
                &&& (#[trigger] out@[k]).data@ == q@[from + k].data@
                &&& out@[k].time == q@[from + k].time
                &&& out@[k].dur == q@[from + k].dur
                &&& out@[k].key == q@[from + k].key
            },
{
    let mut out: Vec<Packet> = Vec::new();
    let mut i = from;
    while i < q.len()
        invariant
            from <= i <= q@.len(),
            out@.len() == i - from,
            forall|k: int|
                0 <= k < out@.len() ==> {
                    &&& (#[trigger] out@[k]).data@ == q@[from + k].data@
                    &&& out@[k].time == q@[from + k].time
                    &&& out@[k].dur == q@[from + k].dur
                    &&& out@[k].key == q@[from + k].key
                },
        decreases q@.len() - i,
    {
        out.push(q[i].duplicate());
        i = i + 1;
    }
    out
}

impl AudioMuxTrack {
    /// A copy of the track's packets and format.
    pub fn from_track(t: &AudioTrackBuf) -> (m: AudioMuxTrack)
        ensures
            m.packets@.len() == t.packets@.len(),
            forall|k: int|
                0 <= k < m.packets@.len() ==> {
                    &&& (#[trigger] m.packets@[k]).data@ == t.packets@[k].data@
                    &&& m.packets@[k].time == t.packets@[k].time
                    &&& m.packets@[k].dur == t.packets@[k].dur
                },
            m.sample_rate == t.sample_rate,
            m.channels == t.channels,
            m.bitrate == t.bitrate,
            m.user_data@ == t.user_data@,
            m.payload_type == t.payload_type,
    {
        AudioMuxTrack {
            packets: copy_packets(&t.packets, 0),
            sample_rate: t.sample_rate,
            channels: t.channels,
            bitrate: t.bitrate,
            user_data: t.user_data.clone(),
            payload_type: t.payload_type,
        }
    }
}

/// Which audio track of the replay a packet belongs to.
#[derive(PartialEq, Eq, Structural, Clone, Copy, Debug)]
pub enum AudioRole {
    Sys,
    Mic,
}

/// The ring buffer of the instant replay.
pub struct ReplayBuffer {
    pub packets: VecDeque<Packet>,
    pub seq_header: Vec<u8>,
    pub width: u32,
    pub height: u32,
    pub fps: u32,
    pub bitrate: u32,
    pub window_ns: i64,
    pub sys_audio: Option<AudioTrackBuf>,
    pub mic_audio: Option<AudioTrackBuf>,
}

/// The ring's window, in ticks, for `seconds` (at least one second).
pub open spec fn window_of(seconds: u32) -> int {
    max_int(seconds as int, 1) * 10_000_000
}

/// An audio track of the format the replay declares for a source.
pub open spec fn fresh_track(t: AudioTrackBuf, fmt: (u32, u16), window_ns: i64) -> bool {
    &&& t.packets@.len() == 0
    &&& t.sample_rate == fmt.0
    &&& t.channels == fmt.1
    &&& t.bitrate == (if fmt.1 <= 1 {
        96_000u32
    } else {
        128_000u32
    })
    &&& t.user_data@.len() == 0
    &&& t.payload_type == 0
    &&& t.window_ns == window_ns
}

impl ReplayBuffer {
    /// An empty ring keeping `seconds` (at least one) of packets.
    pub fn new(seconds: u32, width: u32, height: u32, fps: u32, bitrate: u32) -> (b: ReplayBuffer)
        ensures
            b.packets@.len() == 0,
            b.seq_header@.len() == 0,
            b.width == width,
            b.height == height,
            b.fps == fps,
            b.bitrate == bitrate,
            b.window_ns == window_of(seconds),
            b.sys_audio is None,
            b.mic_audio is None,
    {
        let secs: i64 = if seconds > 1 {
            seconds as i64
        } else {
            1
        };
        ReplayBuffer {
            packets: VecDeque::new(),
            seq_header: Vec::new(),
            width,
            height,
            fps,
            bitrate,
            window_ns: secs * 10_000_000,
            sys_audio: None,
            mic_audio: None,
        }
    }

    /// Declares the audio tracks: one per source whose AAC format is known, each empty
    /// and sharing the ring's window. A source without a format keeps its track as it
    /// was.
    pub fn init_audio(&mut self, sys: Option<(u32, u16)>, mic: Option<(u32, u16)>)
        ensures
            final(self).packets == old(self).packets,
            final(self).seq_header == old(self).seq_header,
            final(self).width == old(self).width,
            final(self).height == old(self).height,
            final(self).fps == old(self).fps,
            final(self).bitrate == old(self).bitrate,
            final(self).window_ns == old(self).window_ns,
            match sys {
                Some(f) => final(self).sys_audio matches Some(t) && fresh_track(t, f, old(self).window_ns),
                None => final(self).sys_audio == old(self).sys_audio,
            },
            match mic {
                Some(f) => final(self).mic_audio matches Some(t) && fresh_track(t, f, old(self).window_ns),
                None => final(self).mic_audio == old(self).mic_audio,
            },
    {
        if let Some((rate, ch)) = sys {
            self.sys_audio = Some(AudioTrackBuf::new(rate, ch, aac_bitrate(ch), self.window_ns));
        }
        if let Some((rate, ch)) = mic {
            self.mic_audio = Some(AudioTrackBuf::new(rate, ch, aac_bitrate(ch), self.window_ns));
        }
    }

    /// The track of a role.
    pub open spec fn track(&self, role: AudioRole) -> Option<AudioTrackBuf> {
        match role {
            AudioRole::Sys => self.sys_audio,
            AudioRole::Mic => self.mic_audio,
        }
    }

    /// Appends an audio packet to the role's track, if that track exists.
    pub fn push_audio(&mut self, role: AudioRole, data: Vec<u8>, time: i64, dur: i64)
        requires
            old(self).track(role) matches Some(t) ==> i64::MIN <= time - t.window_ns <= i64::MAX,
        ensures
            final(self).packets == old(self).packets,
            final(self).seq_header == old(self).seq_header,
            final(self).window_ns == old(self).window_ns,
            final(self).width == old(self).width,
            final(self).height == old(self).height,
            final(self).fps == old(self).fps,
            final(self).bitrate == old(self).bitrate,
            match old(self).track(role) {
                None => final(self).track(role) is None,
                Some(t) => final(self).track(role) matches Some(n) && {
                    &&& n.packets@ == drop_stale(
                        t.packets@.push(Packet { data, time, dur, key: false }),
                        time - t.window_ns,
                    )
                    &&& n.user_data == t.user_data
                    &&& n.payload_type == t.payload_type
                    &&& n.sample_rate == t.sample_rate
                    &&& n.channels == t.channels
                    &&& n.bitrate == t.bitrate
                    &&& n.window_ns == t.window_ns
                },
            },
            role == AudioRole::Sys ==> final(self).mic_audio == old(self).mic_audio,
            role == AudioRole::Mic ==> final(self).sys_audio == old(self).sys_audio,
    {
        match role {
            AudioRole::Sys => {
                if let Some(t) = &mut self.sys_audio {
                    t.push(data, time, dur);
                }
            },
            AudioRole::Mic => {
                if let Some(t) = &mut self.mic_audio {
                    t.push(data, time, dur);
                }
            },
        }
    }

    /// Records the AAC configuration (AudioSpecificConfig) of the role's track.
    pub fn set_user_data(&mut self, role: AudioRole, data: Vec<u8>)
        ensures
            final(self).packets == old(self).packets,
            final(self).seq_header == old(self).seq_header,
            match old(self).track(role) {
                None => final(self).track(role) is None,
                Some(t) => final(self).track(role) == Some(AudioTrackBuf { user_data: data, ..t }),
            },
            role == AudioRole::Sys ==> final(self).mic_audio == old(self).mic_audio,
            role == AudioRole::Mic ==> final(self).sys_audio == old(self).sys_audio,
    {
        match role {
            AudioRole::Sys => {
                if let Some(t) = &mut self.sys_audio {
                    t.user_data = data;
                }
            },
            AudioRole::Mic => {
                if let Some(t) = &mut self.mic_audio {
                    t.user_data = data;
                }
            },
        }
    }

    /// Records the AAC payload type the role's encoder produces.
    pub fn set_payload_type(&mut self, role: AudioRole, v: u32)
        ensures
            final(self).packets == old(self).packets,
            final(self).seq_header == old(self).seq_header,
            match old(self).track(role) {
                None => final(self).track(role) is None,
                Some(t) => final(self).track(role) == Some(AudioTrackBuf { payload_type: v, ..t }),
            },
            role == AudioRole::Sys ==> final(self).mic_audio == old(self).mic_audio,
            role == AudioRole::Mic ==> final(self).sys_audio == old(self).sys_audio,
    {
        match role {
            AudioRole::Sys => {
                if let Some(t) = &mut self.sys_audio {
                    t.payload_type = v;
                }
            },
            AudioRole::Mic => {
                if let Some(t) = &mut self.mic_audio {
                    t.payload_type = v;
                }
            },
        }
    }

    /// Appends a video packet and trims the ring.
    pub fn push(&mut self, data: Vec<u8>, time: i64, dur: i64, key: bool)
        requires
            i64::MIN <= time - old(self).window_ns <= i64::MAX,
        ensures
            ({
                let all = old(self).packets@.push(Packet { data, time, dur, key });
                final(self).packets@ == all.skip(trim_point(all, time - old(self).window_ns))
            }),
            final(self).seq_header == old(self).seq_header,
            final(self).width == old(self).width,
            final(self).height == old(self).height,
            final(self).fps == old(self).fps,
            final(self).bitrate == old(self).bitrate,
            final(self).window_ns == old(self).window_ns,
            final(self).sys_audio == old(self).sys_audio,
            final(self).mic_audio == old(self).mic_audio,
    {
        self.packets.push_back(Packet { data, time, dur, key });
        self.trim();
    }

    /// Keeps the ring bounded: drops the packets before the last keyframe that is at or
    /// before the start of the window (the newest packet's time minus the window), so
    /// that the MP4 can always start on an IDR.
    pub fn trim(&mut self)
        requires
            old(self).packets@.len() > 0 ==> i64::MIN <= old(self).packets@.last().time - old(
                self,
            ).window_ns <= i64::MAX,
        ensures
            old(self).packets@.len() == 0 ==> final(self).packets@ == old(self).packets@,
            old(self).packets@.len() > 0 ==> final(self).packets@ == old(self).packets@.skip(
                trim_point(
                    old(self).packets@,
                    old(self).packets@.last().time - old(self).window_ns,
                ),
            ),
            final(self).seq_header == old(self).seq_header,
            final(self).width == old(self).width,
            final(self).height == old(self).height,
            final(self).fps == old(self).fps,
            final(self).bitrate == old(self).bitrate,
            final(self).window_ns == old(self).window_ns,
            final(self).sys_audio == old(self).sys_audio,
            final(self).mic_audio == old(self).mic_audio,
    {
        let n = self.packets.len();
        if n == 0 {
            return;
        }
        let latest = self.packets[n - 1].time;
        let cutoff = latest - self.window_ns;
        let ghost s = self.packets@;
        let mut anchor: usize = 0;
        let mut i: usize = 0;
        while i < n
            invariant
                n == s.len(),
                s == self.packets@,
                i <= n,
                stale_end(s, cutoff as int) == stale_end_from(s, cutoff as int, i as int),
                anchor as int == last_key_before(s, i as int),
            ensures
                anchor as int == trim_point(s, cutoff as int),
            decreases n - i,
        {
            if self.packets[i].time > cutoff {
                break;
            }
            if self.packets[i].key {
                anchor = i;
            }
            i = i + 1;
        }
        proof {
            lemma_stale_end(s, cutoff as int);
            lemma_last_key_before(s, stale_end(s, cutoff as int));
        }
        let mut k: usize = 0;
        while k < anchor
            invariant
                k <= anchor <= n,
                anchor <= s.len(),
                self.packets@ == s.skip(k as int),
                self.seq_header == old(self).seq_header,
                self.width == old(self).width,
                self.height == old(self).height,
                self.fps == old(self).fps,
                self.bitrate == old(self).bitrate,
                self.window_ns == old(self).window_ns,
                self.sys_audio == old(self).sys_audio,
                self.mic_audio == old(self).mic_audio,
            decreases anchor - k,
        {
            let ghost before = self.packets@;
            let _ = self.packets.pop_front();
            assert(self.packets@ =~= s.skip(k + 1));
            k = k + 1;
        }
    }
}

/// What trimming keeps of a ring `s` whose window starts after `cutoff`: a suffix of
/// it (only a prefix is dropped, the order is kept), starting whenever anything was
/// dropped on a keyframe at or before the window's start (so the kept span covers the
/// whole window), that holds every packet from the first one inside the window on (so
/// the newest packet whenever it is inside the window), and no other keyframe before
/// the window (so no more than needed). A ring that starts on a keyframe still does.
pub proof fn law_trim_keeps_window(s: Seq<Packet>, cutoff: int)
    ensures
        ({
            let t = trim_point(s, cutoff);
            let m = stale_end(s, cutoff);
            let kept = s.skip(t);
            &&& 0 <= t <= m <= s.len()
            &&& forall|j: int| m <= j < s.len() ==> kept[j - t] == s[j]
            &&& forall|j: int| 0 <= j < m ==> s[j].time <= cutoff
            &&& t > 0 ==> kept[0].key && kept[0].time <= cutoff
            &&& s.len() > 0 && s[0].key ==> kept.len() > 0 && kept[0].key
            &&& forall|j: int| 0 < j < m - t ==> !(#[trigger] kept[j]).key
            &&& s.len() > 0 && s.last().time > cutoff ==> t < s.len() && kept.last() == s.last()
        }),
{
    lemma_stale_end(s, cutoff);
    let m = stale_end(s, cutoff);
    lemma_last_key_before(s, m);
    let t = trim_point(s, cutoff);
    let kept = s.skip(t);
    assert forall|j: int| 0 < j < m - t implies !(#[trigger] kept[j]).key by {
        assert(kept[j] == s[t + j]);
    }
    if s.len() > 0 && s.last().time > cutoff {
        assert(m < s.len() || m == s.len());
        if m == s.len() {
            assert(s[s.len() - 1].time <= cutoff);
        }
    }
}

/// The newest audio packet always stays in its track when the window is positive.
pub proof fn law_audio_push_keeps_newest(s: Seq<Packet>, p: Packet, window: int)
    requires
        window > 0,
    ensures
        drop_stale(s.push(p), p.time - window).len() > 0,
        drop_stale(s.push(p), p.time - window).last() == p,
    decreases s.len(),
{
    if s.len() == 0 {
        assert(s.push(p) =~= seq![p]);
        assert(drop_stale(seq![p], p.time - window) == seq![p]);
    } else if s[0].time <= p.time - window {
        assert(s.push(p).drop_first() =~= s.drop_first().push(p));
        law_audio_push_keeps_newest(s.drop_first(), p, window);
    }
}

/// An `i64` value.
pub open spec fn fits_i64(x: int) -> bool {
    i64::MIN <= x <= i64::MAX
}

/// The packet a drained sample becomes: its bytes and duration, the given time, and a
/// keyframe when the encoder flagged a clean point or its bitstream holds an IDR.
pub open spec fn drained_packet(s: (Vec<u8>, i64, i64, u32), time: i64) -> Packet {
    Packet { data: s.0, time, dur: s.2, key: s.3 == 1 || has_idr(s.0@) }
}

/// The time the `k`-th sample of a drain gets: the `k`-th input time waiting, or the
/// encoder's own time once none waits.
pub open spec fn drain_time(fifo: Seq<i64>, samples: Seq<(Vec<u8>, i64, i64, u32)>, k: int) -> i64 {
    if k < fifo.len() {
        fifo[k]
    } else {
        samples[k].1
    }
}

/// The ring, sequence header, "header taken" flag and waiting input times after
/// draining `samples` (data, encoder time, duration, clean-point flag) in output order
/// into a ring of window `window`: each becomes a packet (see `drained_packet`) timed
/// by the next waiting input time, or its own when none waits, and is pushed and the
/// ring trimmed; until a header is taken, a sample's in-band SPS/PPS become it.
pub open spec fn drained(
    packets: Seq<Packet>,
    header: Seq<u8>,
    grabbed: bool,
    fifo: Seq<i64>,
    samples: Seq<(Vec<u8>, i64, i64, u32)>,
    window: int,
) -> (Seq<Packet>, Seq<u8>, bool, Seq<i64>)
    decreases samples.len(),
{
    if samples.len() == 0 {
        (packets, header, grabbed, fifo)
    } else {
        let s = samples[0];
        let time = drain_time(fifo, samples, 0);
        let all = packets.push(drained_packet(s, time));
        let ps = param_sets(s.0@);
        let take = !grabbed && ps.len() > 0;
        drained(
            all.skip(trim_point(all, time - window)),
            if take {
                ps
            } else {
                header
            },
            grabbed || take,
            if fifo.len() > 0 {
                fifo.drop_first()
            } else {
                fifo
            },
            samples.drop_first(),
            window,
        )
    }
}

/// A whole drain: one waiting input time is used per sample, in order, and a
/// sequence header already taken is never replaced; one not yet taken is the in-band
/// SPS/PPS of the first sample that has them, or stays as it was.
pub proof fn law_drain(
    packets: Seq<Packet>,
    header: Seq<u8>,
    grabbed: bool,
    fifo: Seq<i64>,
    samples: Seq<(Vec<u8>, i64, i64, u32)>,
    window: int,
)
    ensures
        ({
            let r = drained(packets, header, grabbed, fifo, samples, window);
            &&& r.3 == fifo.skip(if samples.len() < fifo.len() { samples.len() as int } else { fifo.len() as int })
            &&& grabbed ==> r.1 == header && r.2
            &&& !grabbed && (forall|k: int| 0 <= k < samples.len() ==> param_sets((#[trigger] samples[k]).0@).len() == 0)
                ==> r.1 == header && !r.2
            &&& !grabbed && (exists|k: int| 0 <= k < samples.len() && param_sets((#[trigger] samples[k]).0@).len() > 0)
                ==> r.2 && exists|k: int| {
                &&& 0 <= k < samples.len()
                &&& r.1 == param_sets((#[trigger] samples[k]).0@)
                &&& r.1.len() > 0
                &&& forall|j: int| 0 <= j < k ==> param_sets((#[trigger] samples[j]).0@).len() == 0
            }
        }),
    decreases samples.len(),
{
    if samples.len() == 0 {
        assert(fifo.skip(0) =~= fifo);
    } else {
        let s = samples[0];
        let time = drain_time(fifo, samples, 0);
        let all = packets.push(drained_packet(s, time));
        let ps = param_sets(s.0@);
        let take = !grabbed && ps.len() > 0;
        let nf = if fifo.len() > 0 {
            fifo.drop_first()
        } else {
            fifo
        };
        let rest = samples.drop_first();
        law_drain(all.skip(trim_point(all, time - window)), if take { ps } else { header }, grabbed || take, nf, rest, window);
        if fifo.len() > 0 {
            assert(nf.skip(if rest.len() < nf.len() { rest.len() as int } else { nf.len() as int }) =~= fifo.skip(
                if samples.len() < fifo.len() { samples.len() as int } else { fifo.len() as int },
            ));
        } else {
            assert(fifo.skip(0) =~= fifo);
        }
        assert forall|k: int| 0 <= k < rest.len() implies #[trigger] rest[k] == samples[k + 1] by {}
        let r = drained(packets, header, grabbed, fifo, samples, window);
        if !grabbed {
            if take {
                assert(r.1 == ps);
            } else {
                if exists|k: int| 0 <= k < samples.len() && param_sets((#[trigger] samples[k]).0@).len() > 0 {
                    let k = choose|k: int| 0 <= k < samples.len() && param_sets((#[trigger] samples[k]).0@).len() > 0;
                    assert(k > 0);
                    assert(rest[k - 1] == samples[k]);
                    let k2 = choose|k2: int| {
                        &&& 0 <= k2 < rest.len()
                        &&& r.1 == param_sets((#[trigger] rest[k2]).0@)
                        &&& r.1.len() > 0
                        &&& forall|j: int| 0 <= j < k2 ==> param_sets((#[trigger] rest[j]).0@).len() == 0
                    };
                    assert(r.1 == param_sets(samples[k2 + 1].0@));
                    assert forall|j: int| 0 <= j < k2 + 1 implies param_sets((#[trigger] samples[j]).0@).len() == 0 by {
                        if j > 0 {
                            assert(rest[j - 1] == samples[j]);
                        }
                    }
                } else {
                    assert forall|k: int| 0 <= k < rest.len() implies param_sets((#[trigger] rest[k]).0@).len() == 0 by {
                        assert(rest[k] == samples[k + 1]);
                    }
                }
            }
        }
    }
}

/// Index of the first keyframe of `s` at or after `i`.
pub open spec fn first_key_from(s: Seq<Packet>, i: int) -> Option<int>
    decreases s.len() - i,
    when 0 <= i
{
    if i >= s.len() {
        None
    } else if s[i].key {
        Some(i)
    } else {
        first_key_from(s, i + 1)
    }
}

/// What a saved replay is made of: copies of the ring's video packets from its first
/// keyframe on (none when there is no keyframe yet), the ring's size before that cut,
/// its sequence header and format, and copies of its audio tracks.
pub struct ReplaySnapshot {
    pub packets: Vec<Packet>,
    pub total: usize,
    pub seq_header: Vec<u8>,
    pub width: u32,
    pub height: u32,
    pub fps: u32,
    pub bitrate: u32,
    pub sys_audio: Option<AudioMuxTrack>,
    pub mic_audio: Option<AudioMuxTrack>,
}

/// `m` is a copy of the track `t`.
pub open spec fn is_copy_of_track(m: AudioMuxTrack, t: AudioTrackBuf) -> bool {
    &&& m.packets@.len() == t.packets@.len()
    &&& forall|k: int|
        0 <= k < m.packets@.len() ==> {
            &&& (#[trigger] m.packets@[k]).data@ == t.packets@[k].data@
            &&& m.packets@[k].time == t.packets@[k].time
            &&& m.packets@[k].dur == t.packets@[k].dur
        }
    &&& m.sample_rate == t.sample_rate
    &&& m.channels == t.channels
    &&& m.bitrate == t.bitrate
    &&& m.user_data@ == t.user_data@
    &&& m.payload_type == t.payload_type
}

/// `o` is a copy of the optional track `t`.
pub open spec fn is_copy_of_opt_track(o: Option<AudioMuxTrack>, t: Option<AudioTrackBuf>) -> bool {
    match (o, t) {
        (Some(m), Some(b)) => is_copy_of_track(m, b),
        (None, None) => true,
        _ => false,
    }
}

/// Copy of an optional track.
fn copy_opt_track(t: &Option<AudioTrackBuf>) -> (o: Option<AudioMuxTrack>)
    ensures
        is_copy_of_opt_track(o, *t),
{
    match t {
        Some(b) => Some(AudioMuxTrack::from_track(b)),
        None => None,
    }
}

impl ReplayBuffer {
    /// Reconfigures the ring for a (re)built capture pipeline. When the output size
    /// changed, the packets held (of the old size and sequence header) cannot be muxed
    /// with the new ones and are dropped with the header; otherwise they are kept. Then
    /// the format is recorded and the audio tracks are declared anew.
    pub fn configure(
        &mut self,
        out_w: u32,
        out_h: u32,
        fps: u32,
        bitrate: u32,
        sys: Option<(u32, u16)>,
        mic: Option<(u32, u16)>,
    )
        ensures
            (old(self).width != out_w || old(self).height != out_h) ==> {
                &&& final(self).packets@.len() == 0
                &&& final(self).seq_header@.len() == 0
            },
            (old(self).width == out_w && old(self).height == out_h) ==> {
                &&& final(self).packets == old(self).packets
                &&& final(self).seq_header == old(self).seq_header
            },
            final(self).width == out_w,
            final(self).height == out_h,
            final(self).fps == fps,
            final(self).bitrate == bitrate,
            final(self).window_ns == old(self).window_ns,
            match sys {
                Some(f) => final(self).sys_audio matches Some(t) && fresh_track(t, f, old(self).window_ns),
                None => final(self).sys_audio == old(self).sys_audio,
            },
            match mic {
                Some(f) => final(self).mic_audio matches Some(t) && fresh_track(t, f, old(self).window_ns),
                None => final(self).mic_audio == old(self).mic_audio,
            },
    {
        if self.width != out_w || self.height != out_h {
            self.packets.clear();
            self.seq_header.clear();
        }
        self.width = out_w;
        self.height = out_h;
        self.fps = fps;
        self.bitrate = bitrate;
        self.init_audio(sys, mic);
    }

    /// Takes the sequence header from the encoder's output type, if it exposes one and
    /// none was taken yet.
    pub fn accept_sequence_header(&mut self, header: Option<Vec<u8>>, seq_grabbed: &mut bool)
        ensures
            (!*old(seq_grabbed) && header is Some) ==> {
                &&& final(self).seq_header == header->0
                &&& *final(seq_grabbed)
            },
            (*old(seq_grabbed) || header is None) ==> {
                &&& final(self).seq_header == old(self).seq_header
                &&& *final(seq_grabbed) == *old(seq_grabbed)
            },
            final(self).packets == old(self).packets,
            final(self).window_ns == old(self).window_ns,
            final(self).sys_audio == old(self).sys_audio,
            final(self).mic_audio == old(self).mic_audio,
    {
        if !*seq_grabbed {
            if let Some(h) = header {
                self.seq_header = h;
                *seq_grabbed = true;
            }
        }
    }

    /// Takes one packet drained from the encoder into the ring. Until a sequence header
    /// is known, the packet's in-band SPS/PPS (if any) become it. The packet's time is
    /// the next input time waiting in `pts_fifo` (the encoder keeps input order), or the
    /// encoder's own time if none waits.
    pub fn accept_encoded(
        &mut self,
        data: Vec<u8>,
        enc_time: i64,
        dur: i64,
        key: bool,
        seq_grabbed: &mut bool,
        pts_fifo: &mut VecDeque<i64>,
    )
        requires
            old(pts_fifo)@.len() > 0 ==> fits_i64(old(pts_fifo)@[0] - old(self).window_ns),
            old(pts_fifo)@.len() == 0 ==> fits_i64(enc_time - old(self).window_ns),
        ensures
            ({
                let time = if old(pts_fifo)@.len() > 0 {
                    old(pts_fifo)@[0]
                } else {
                    enc_time
                };
                let all = old(self).packets@.push(Packet { data, time, dur, key });
                &&& final(self).packets@ == all.skip(trim_point(all, time - old(self).window_ns))
                &&& final(pts_fifo)@ == if old(pts_fifo)@.len() > 0 {
                    old(pts_fifo)@.drop_first()
                } else {
                    old(pts_fifo)@
                }
            }),
            (!*old(seq_grabbed) && param_sets(data@).len() > 0) ==> {
                &&& final(self).seq_header@ == param_sets(data@)
                &&& *final(seq_grabbed)
            },
            (*old(seq_grabbed) || param_sets(data@).len() == 0) ==> {
                &&& final(self).seq_header == old(self).seq_header
                &&& *final(seq_grabbed) == *old(seq_grabbed)
            },
            final(self).window_ns == old(self).window_ns,
            final(self).sys_audio == old(self).sys_audio,
            final(self).mic_audio == old(self).mic_audio,
    {
        if !*seq_grabbed {
            let ps = extract_param_sets(data.as_slice());
            if ps.len() > 0 {
                self.seq_header = ps;
                *seq_grabbed = true;
            }
        }
        let time = match pts_fifo.pop_front() {
            Some(t) => t,
            None => enc_time,
        };
        self.push(data, time, dur, key);
    }

    /// Takes a whole drain of the encoder's output into the ring (see `drained`):
    /// `samples` are (data, encoder time, duration, clean-point flag) in output order.
    /// Returns how many were taken: all of them.
    pub fn accept_drained(
        &mut self,
        samples: Vec<(Vec<u8>, i64, i64, u32)>,
        seq_grabbed: &mut bool,
        pts_fifo: &mut VecDeque<i64>,
    ) -> (n: usize)
        requires
            forall|k: int|
                0 <= k < samples@.len() ==> fits_i64(drain_time(old(pts_fifo)@, samples@, k) - old(self).window_ns),
        ensures
            n == samples@.len(),
            (final(self).packets@, final(self).seq_header@, *final(seq_grabbed), final(pts_fifo)@) == drained(
                old(self).packets@,
                old(self).seq_header@,
                *old(seq_grabbed),
                old(pts_fifo)@,
                samples@,
                old(self).window_ns as int,
            ),
            final(self).window_ns == old(self).window_ns,
            final(self).sys_audio == old(self).sys_audio,
            final(self).mic_audio == old(self).mic_audio,
    {
        let n = samples.len();
        let mut rest = samples;
        let ghost window = self.window_ns as int;
        while rest.len() > 0
            invariant
                self.window_ns == window,
                self.sys_audio == old(self).sys_audio,
                self.mic_audio == old(self).mic_audio,
                forall|k: int|
                    0 <= k < rest@.len() ==> fits_i64(drain_time(pts_fifo@, rest@, k) - window),
                drained(self.packets@, self.seq_header@, *seq_grabbed, pts_fifo@, rest@, window) == drained(
                    old(self).packets@,
                    old(self).seq_header@,
                    *old(seq_grabbed),
                    old(pts_fifo)@,
                    samples@,
                    window,
                ),
            decreases rest@.len(),
        {
            let ghost before = rest@;
            let ghost fifo0 = pts_fifo@;
            let (data, enc_time, dur, clean) = rest.remove(0);
            assert(rest@ =~= before.drop_first());
            assert(fits_i64(drain_time(fifo0, before, 0) - window));
            let key = is_keyframe(clean, data.as_slice());
            self.accept_encoded(data, enc_time, dur, key, seq_grabbed, pts_fifo);
            assert forall|k: int| 0 <= k < rest@.len() implies fits_i64(drain_time(pts_fifo@, rest@, k) - window) by {
                assert(rest@[k] == before[k + 1]);
                assert(drain_time(pts_fifo@, rest@, k) == drain_time(fifo0, before, k + 1));
            }
        }
        assert(rest@ =~= Seq::<(Vec<u8>, i64, i64, u32)>::empty());
        n
    }

    /// Takes an audio packet from a capture track. Its time is rebased on the video's
    /// origin `video_base` (`i64::MIN` while the video has not started, in which case
    /// the packet is dropped: it cannot be aligned), never below 0.
    pub fn push_audio_from_capture(
        &mut self,
        role: AudioRole,
        data: Vec<u8>,
        time: i64,
        dur: i64,
        video_base: i64,
    )
        requires
            video_base != i64::MIN ==> fits_i64(time - video_base),
            video_base != i64::MIN ==> (old(self).track(role) matches Some(t) ==> fits_i64(
                max_int(time - video_base, 0) - t.window_ns,
            )),
        ensures
            video_base == i64::MIN ==> *final(self) == *old(self),
            video_base != i64::MIN ==> match old(self).track(role) {
                None => final(self).track(role) is None,
                Some(t) => final(self).track(role) matches Some(n) && n.packets@ == drop_stale(
                    t.packets@.push(
                        Packet {
                            data,
                            time: max_int(time - video_base, 0) as i64,
                            dur,
                            key: false,
                        },
                    ),
                    max_int(time - video_base, 0) - t.window_ns,
                ),
            },
            final(self).packets == old(self).packets,
            role == AudioRole::Sys ==> final(self).mic_audio == old(self).mic_audio,
            role == AudioRole::Mic ==> final(self).sys_audio == old(self).sys_audio,
    {
        let ts = match rebase_time(time, video_base) {
            Some(t) => t,
            None => return ,
        };
        self.push_audio(role, data, ts, dur);
    }

    /// What a save takes from the ring (see `ReplaySnapshot`).
    pub fn snapshot(&self) -> (snap: ReplaySnapshot)
        ensures
            snap.total == self.packets@.len(),
            match first_key_from(self.packets@, 0) {
                Some(k) => {
                    &&& snap.packets@.len() == self.packets@.len() - k
                    &&& forall|j: int|
                        0 <= j < snap.packets@.len() ==> {
                            &&& (#[trigger] snap.packets@[j]).data@ == self.packets@[k + j].data@
                            &&& snap.packets@[j].time == self.packets@[k + j].time
                            &&& snap.packets@[j].dur == self.packets@[k + j].dur
                            &&& snap.packets@[j].key == self.packets@[k + j].key
                        }
                },
                None => snap.packets@.len() == 0,
            },
            snap.seq_header@ == self.seq_header@,
            snap.width == self.width,
            snap.height == self.height,
            snap.fps == self.fps,
            snap.bitrate == self.bitrate,
            is_copy_of_opt_track(snap.sys_audio, self.sys_audio),
            is_copy_of_opt_track(snap.mic_audio, self.mic_audio),
    {
        let n = self.packets.len();
        let mut i: usize = 0;
        while i < n
            invariant
                n == self.packets@.len(),
                i <= n,
                first_key_from(self.packets@, 0) == first_key_from(self.packets@, i as int),
            ensures
                first_key_from(self.packets@, 0) == first_key_from(self.packets@, i as int),
                i < n ==> self.packets@[i as int].key,
                i == n ==> first_key_from(self.packets@, 0) is None,
            decreases n - i,
        {
            if self.packets[i].key {
                break;
            }
            i = i + 1;
        }
        let packets = if i < n {
            copy_packets(&self.packets, i)
        } else {
            Vec::new()
        };
        ReplaySnapshot {
            packets,
            total: n,
            seq_header: self.seq_header.clone(),
            width: self.width,
            height: self.height,
            fps: self.fps,
            bitrate: self.bitrate,
            sys_audio: copy_opt_track(&self.sys_audio),
            mic_audio: copy_opt_track(&self.mic_audio),
        }
    }
}

/// An audio track can go into the MP4 only with its AAC configuration (the MP4 `esds`
/// is written from it) and at least one packet; otherwise it is left out and the clip
/// is saved without it.
pub fn usable_track(t: Option<AudioMuxTrack>) -> (r: Option<AudioMuxTrack>)
    ensures
        match t {
            Some(m) => if m.user_data@.len() > 0 && m.packets@.len() > 0 {
                r == Some(m)
            } else {
                r is None
            },
            None => r is None,
        },
{
    match t {
        Some(m) => {
            if m.user_data.len() > 0 && m.packets.len() > 0 {
                Some(m)
            } else {
                None
            }
        },
        None => None,
    }
}

/// A time rebased on an origin `base` (`i64::MIN` = no origin yet: None), never below 0.
pub fn rebase_time(time: i64, base: i64) -> (r: Option<i64>)
    requires
        base != i64::MIN ==> fits_i64(time - base),
    ensures
        base == i64::MIN ==> r is None,
        base != i64::MIN ==> r == Some(max_int(time - base, 0) as i64),
{
    if base == i64::MIN {
        return None;
    }
    let d = time - base;
    Some(
        if d > 0 {
            d
        } else {
            0
        },
    )
}

/// Duration given to the last video sample of a clip: 1/60 s.
pub const LAST_SAMPLE_DURATION: i64 = 166_667;

/// The video samples' times fit: rebased on the first packet, and between neighbours.
pub open spec fn video_times_fit(s: Seq<Packet>) -> bool {
    &&& s.len() > 0
    &&& forall|i: int| 0 <= i < s.len() ==> fits_i64(#[trigger] s[i].time - s[0].time)
    &&& forall|i: int| 0 <= i < s.len() - 1 ==> fits_i64(s[i + 1].time - #[trigger] s[i].time)
}

/// (time, duration) of video sample `i` of a clip: its time rebased on the first
/// packet, and the gap to the next packet (at least 1), or 1/60 s for the last one.
pub open spec fn video_sample(s: Seq<Packet>, i: int) -> (i64, i64) {
    (
        (s[i].time - s[0].time) as i64,
        if i + 1 < s.len() {
            max_int(s[i + 1].time - s[i].time, 1) as i64
        } else {
            LAST_SAMPLE_DURATION
        },
    )
}

/// The (time, duration) of each video sample written to the MP4: times rebased on the
/// first packet (the keyframe the clip starts on), each duration the gap to the next
/// packet (the real pace of the capture), the last one 1/60 s.
pub fn video_timeline(packets: &[Packet]) -> (out: Vec<(i64, i64)>)
    requires
        video_times_fit(packets@),
    ensures
        out@.len() == packets@.len(),
        forall|i: int| 0 <= i < out@.len() ==> #[trigger] out@[i] == video_sample(packets@, i),
{
    let n = packets.len();
    let base = packets[0].time;
    let mut out: Vec<(i64, i64)> = Vec::new();
    let mut i: usize = 0;
    while i < n
        invariant
            n == packets@.len(),
            video_times_fit(packets@),
            base == packets@[0].time,
            i <= n,
            out@.len() == i,
            forall|k: int| 0 <= k < i ==> #[trigger] out@[k] == video_sample(packets@, k),
        decreases n - i,
    {
        let time = packets[i].time;
        assert(fits_i64(packets@[i as int].time - packets@[0].time));
        let dur = if i + 1 < n {
            assert(fits_i64(packets@[i + 1].time - packets@[i as int].time));
            let gap = packets[i + 1].time - time;
            if gap > 1 {
                gap
            } else {
                1
            }
        } else {
            LAST_SAMPLE_DURATION
        };
        out.push((time - base, dur));
        i = i + 1;
    }
    out
}

/// With strictly increasing packet times, the video samples tile the clip: it starts
/// at 0, and each sample ends where the next one starts.
pub proof fn law_video_timeline_contiguous(s: Seq<Packet>, i: int)
    requires
        video_times_fit(s),
        0 <= i < s.len() - 1,
        s[i].time < s[i + 1].time,
    ensures
        video_sample(s, 0).0 == 0,
        video_sample(s, i).0 + video_sample(s, i).1 == video_sample(s, i + 1).0,
{
    assert(fits_i64(s[i].time - s[0].time));
    assert(fits_i64(s[i + 1].time - s[0].time));
    assert(fits_i64(s[i + 1].time - s[i].time));
}

/// The audio samples of a track written to the MP4: for each packet at or after the
/// video origin `base`, in order, its index, its time rebased on `base`, and its
/// duration. Packets before the origin are left out (MP4 times cannot be negative).
pub fn audio_timeline(packets: &[Packet], base: i64) -> (out: Vec<(usize, i64, i64)>)
    requires
        forall|i: int| 0 <= i < packets@.len() ==> fits_i64(#[trigger] packets@[i].time - base),
    ensures
        forall|k: int|
            0 <= k < out@.len() ==> {
                let j = (#[trigger] out@[k]).0 as int;
                &&& j < packets@.len()
                &&& packets@[j].time >= base
                &&& out@[k].1 == packets@[j].time - base
                &&& out@[k].2 == packets@[j].dur
            },
        forall|a: int, b: int| 0 <= a < b < out@.len() ==> #[trigger] out@[a].0 < #[trigger] out@[b].0,
        forall|j: int|
            0 <= j < packets@.len() && #[trigger] packets@[j].time >= base ==> exists|k: int|
                0 <= k < out@.len() && #[trigger] out@[k].0 == j,
{
    let n = packets.len();
    let mut out: Vec<(usize, i64, i64)> = Vec::new();
    let mut i: usize = 0;
    while i < n
        invariant
            n == packets@.len(),
            forall|i: int| 0 <= i < packets@.len() ==> fits_i64(#[trigger] packets@[i].time - base),
            i <= n,
            forall|k: int|
                0 <= k < out@.len() ==> {
                    let j = (#[trigger] out@[k]).0 as int;
                    &&& j < i
                    &&& packets@[j].time >= base
                    &&& out@[k].1 == packets@[j].time - base
                    &&& out@[k].2 == packets@[j].dur
                },
            forall|a: int, b: int|
                0 <= a < b < out@.len() ==> #[trigger] out@[a].0 < #[trigger] out@[b].0,
            forall|j: int|
                0 <= j < i && #[trigger] packets@[j].time >= base ==> exists|k: int|
                    0 <= k < out@.len() && #[trigger] out@[k].0 == j,
        decreases n - i,
    {
        let p = &packets[i];
        if p.time >= base {
            assert(fits_i64(packets@[i as int].time - base));
            let ghost before = out@;
            out.push((i, p.time - base, p.dur));
            assert forall|j: int|
                0 <= j < i + 1 && #[trigger] packets@[j].time >= base implies exists|k: int|
                0 <= k < out@.len() && #[trigger] out@[k].0 == j by {
                if j == i {
                    assert(out@[out@.len() - 1].0 == j);
                } else {
                    let k = choose|k: int| 0 <= k < before.len() && #[trigger] before[k].0 == j;
                    assert(out@[k].0 == j);
                }
            }
        }
        i = i + 1;
    }
    out
}

} // verus!
