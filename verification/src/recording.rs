//! Manual recording: which encoder path to take, and the bookkeeping of the frames and
//! audio written to the MP4 (a ring of GPU textures holding the latest frames, and the
//! time origin that audio is written against).
use vstd::prelude::*;
use crate::text::{chars_eq, chars_of};

verus! {

/// Whether to encode on the GPU: unless the preference is `Software` or software
/// encoding is forced (the `FLASHBACK_FORCE_SW_ENCODER` environment variable is set).
pub fn use_hardware(encoder_pref: &str, forced_software: bool) -> (r: bool)
    ensures
        r == (encoder_pref@ != "Software"@ && !forced_software),
{
    let p = chars_of(encoder_pref);
    let sw = chars_of("Software");
    !chars_eq(p.as_slice(), sw.as_slice()) && !forced_software
}

/// Whether to open the microphone: it is switched on and a device is chosen.
pub fn wants_microphone(mic: bool, mic_device: &str) -> (r: bool)
    ensures
        r == (mic && mic_device@.len() > 0),
{
    mic && chars_of(mic_device).len() > 0
}

/// The frames of a recording: a ring of `len` textures, the slot the next frame is
/// copied into, the slot of the latest frame, and the capture time of the first frame
/// (the time origin of the file).
pub struct FrameRing {
    pub len: usize,
    pub next: usize,
    pub latest: Option<usize>,
    pub base: Option<i64>,
}

impl FrameRing {
    /// The slots are within the ring.
    pub open spec fn wf(&self) -> bool {
        &&& self.len > 0
        &&& self.next < self.len
        &&& self.latest matches Some(l) ==> l < self.len
    }

    /// A ring of `len` textures, before any frame.
    pub fn new(len: usize) -> (r: FrameRing)
        requires
            len > 0,
        ensures
            r.wf(),
            r == (FrameRing { len, next: 0, latest: None, base: None }),
    {
        FrameRing { len, next: 0, latest: None, base: None }
    }

    /// A frame captured at `time` arrives: it goes to the next slot, which becomes the
    /// latest; the first frame sets the time origin. Returns the slot to copy it into.
    pub fn note_frame(&mut self, time: i64) -> (slot: usize)
        requires
            old(self).wf(),
        ensures
            final(self).wf(),
            slot == old(self).next,
            final(self).latest == Some(slot),
            final(self).next == (old(self).next + 1) % (old(self).len as int),
            final(self).len == old(self).len,
            final(self).base == match old(self).base {
                Some(b) => Some(b),
                None => Some(time),
            },
    {
        if self.base.is_none() {
            self.base = Some(time);
        }
        let idx = self.next;
        self.next = (self.next + 1) % self.len;
        self.latest = Some(idx);
        idx
    }

    /// A frame can be written: one has arrived.
    pub fn has_frame(&self) -> (r: bool)
        ensures
            r == self.latest is Some,
    {
        self.latest.is_some()
    }

    /// The file time of audio captured at `time`: its distance from the first frame,
    /// not negative; none before the first frame (such audio is dropped).
    pub fn audio_time(&self, time: i64) -> (r: Option<i64>)
        requires
            self.base matches Some(b) ==> i64::MIN <= time - b <= i64::MAX,
        ensures
            match self.base {
                Some(b) => r == Some(if time - b > 0 {
                    (time - b) as i64
                } else {
                    0i64
                }),
                None => r is None,
            },
    {
        match self.base {
            Some(b) => {
                let d = time - b;
                Some(if d > 0 {
                    d
                } else {
                    0
                })
            },
            None => None,
        }
    }
}

/// The duration written for a paced frame: at least one tick.
pub fn frame_duration(dur: i64) -> (r: i64)
    ensures
        r == if dur > 1 {
            dur
        } else {
            1
        },
{
    if dur > 1 {
        dur
    } else {
        1
    }
}

} // verus!
