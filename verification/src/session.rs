//! The decisions of the Instant Replay thread: arming and re-arming the capture
//! pipeline, and following the game window in and out of focus (while it is minimised
//! an "out of focus" card is encoded in place of the frozen frames). The thread does
//! the work (building pipelines, waiting, querying the window, rendering the card);
//! these types say what it does next. Times are in nanoseconds of a monotonic clock.
use vstd::prelude::*;

verus! {

// ---------------------------------------------------------------------------
// Arming
// ---------------------------------------------------------------------------

/// What to tell the caller that waits for the replay to start.
#[derive(PartialEq, Eq, Structural, Clone, Copy, Debug)]
pub enum Announce {
    /// Nothing (already told, or nothing to tell yet).
    Nothing,
    /// The replay is armed.
    Ready,
    /// The replay could not start (the error of the build).
    Failed,
}

/// What the replay thread does next.
#[derive(PartialEq, Eq, Structural, Clone, Copy, Debug)]
pub enum ArmStep {
    /// Run the pipeline that was built until it stops.
    Pump,
    /// Wait a moment (400 ms, ending early on a stop request) and build again.
    Wait,
    /// End the thread.
    Finish,
}

/// The replay thread's arming state. In window mode (a game) the window may be
/// minimised or not open yet when the replay is armed: a failed build is retried, and a
/// pipeline that ends without a stop request is rebuilt (reconnection). In monitor mode
/// a failure is final.
pub struct ReplayArming {
    pub window_mode: bool,
    pub announced: bool,
}

/// One build's effect on the arming (see `ReplayArming::on_build`): the new state,
/// what is announced and what the thread does next.
pub open spec fn spec_on_build(a: ReplayArming, ok: bool) -> (ReplayArming, Announce, ArmStep) {
    let step = if ok {
        ArmStep::Pump
    } else if a.window_mode {
        ArmStep::Wait
    } else {
        ArmStep::Finish
    };
    let ann = if a.announced {
        Announce::Nothing
    } else if ok || a.window_mode {
        Announce::Ready
    } else {
        Announce::Failed
    };
    (ReplayArming { window_mode: a.window_mode, announced: a.announced || ok || a.window_mode }, ann, step)
}

/// How many announcements the thread makes over a run of builds with the outcomes
/// `outcomes`, from arming `a`: the run ends at the first build that finishes it.
pub open spec fn announcements(a: ReplayArming, outcomes: Seq<bool>) -> nat
    decreases outcomes.len(),
{
    if outcomes.len() == 0 {
        0
    } else {
        let (next, ann, step) = spec_on_build(a, outcomes[0]);
        let here: nat = if ann == Announce::Nothing {
            0
        } else {
            1
        };
        if step == ArmStep::Finish {
            here
        } else {
            here + announcements(next, outcomes.drop_first())
        }
    }
}

/// The caller waiting for the replay hears at most once, whatever the builds give:
/// from a fresh arming at most one announcement (armed, or the error), and none once
/// something was announced.
pub proof fn law_replay_announces_at_most_once(a: ReplayArming, outcomes: Seq<bool>)
    ensures
        announcements(a, outcomes) <= 1,
        a.announced ==> announcements(a, outcomes) == 0,
    decreases outcomes.len(),
{
    if outcomes.len() > 0 {
        let (next, ann, step) = spec_on_build(a, outcomes[0]);
        law_replay_announces_at_most_once(next, outcomes.drop_first());
    }
}

/// The number of pipelines the replay thread builds over its rounds `rounds`, from
/// arming `a`. A round is (a stop was seen before building, the build succeeded, a stop
/// was seen after it: when the pipeline stopped or during the wait before the next
/// build). A stop seen before building ends the thread without a build; after a
/// build, the thread goes on only in window mode, when the build was not final and no
/// stop was seen.
pub open spec fn run_builds(a: ReplayArming, rounds: Seq<(bool, bool, bool)>) -> nat
    decreases rounds.len(),
{
    if rounds.len() == 0 {
        0
    } else {
        let (stop_before, ok, stop_after) = rounds[0];
        if stop_before {
            0
        } else {
            let (next, ann, step) = spec_on_build(a, ok);
            if step != ArmStep::Finish && !stop_after && a.window_mode {
                1 + run_builds(next, rounds.drop_first())
            } else {
                1
            }
        }
    }
}

/// The replay thread's run: in monitor mode at most one pipeline is built (a failed
/// build, or the end of its session, ends the thread); in window mode failed builds
/// and ended sessions are retried round after round until a stop; and once a stop is
/// seen no further pipeline is built.
pub proof fn law_replay_run(a: ReplayArming, rounds: Seq<(bool, bool, bool)>)
    ensures
        !a.window_mode ==> run_builds(a, rounds) <= 1,
        a.window_mode && (forall|k: int| 0 <= k < rounds.len() ==> !(#[trigger] rounds[k]).0 && !rounds[k].2)
            ==> run_builds(a, rounds) == rounds.len(),
        forall|k: int| 0 <= k < rounds.len() && (#[trigger] rounds[k]).0 ==> run_builds(a, rounds) <= k,
        forall|k: int| 0 <= k < rounds.len() && (#[trigger] rounds[k]).2 ==> run_builds(a, rounds) <= k + 1,
    decreases rounds.len(),
{
    if rounds.len() > 0 {
        let rest = rounds.drop_first();
        let (next, ann, step) = spec_on_build(a, rounds[0].1);
        law_replay_run(next, rest);
        assert forall|k: int| 0 <= k < rounds.len() && (#[trigger] rounds[k]).0 implies run_builds(a, rounds)
            <= k by {
            if k > 0 {
                assert(rest[k - 1] == rounds[k]);
            }
        }
        assert forall|k: int| 0 <= k < rounds.len() && (#[trigger] rounds[k]).2 implies run_builds(a, rounds)
            <= k + 1 by {
            if k > 0 {
                assert(rest[k - 1] == rounds[k]);
            }
        }
        if a.window_mode && (forall|k: int| 0 <= k < rounds.len() ==> !(#[trigger] rounds[k]).0 && !rounds[k].2) {
            assert forall|k: int| 0 <= k < rest.len() implies !(#[trigger] rest[k]).0 && !rest[k].2 by {
                assert(rest[k] == rounds[k + 1]);
            }
            assert(!rounds[0].0 && !rounds[0].2);
        }
    }
}

impl ReplayArming {
    /// The arming of a replay of `target` (`"window"` for the game's window, else a
    /// monitor id); nothing has been announced.
    pub fn new(target: &str) -> (a: ReplayArming)
        ensures
            a.window_mode == (target@ == "window"@),
            !a.announced,
    {
        let t = crate::text::chars_of(target);
        let w = crate::text::chars_of("window");
        ReplayArming { window_mode: crate::text::chars_eq(t.as_slice(), w.as_slice()), announced: false }
    }

    /// After building a pipeline (`ok` when it was built): what to announce and what to
    /// do. A built pipeline is pumped; a failure ends a monitor replay (announcing the
    /// error if nothing was announced) and is retried for a window replay, which is
    /// announced as armed. Nothing is announced twice.
    pub fn on_build(&mut self, ok: bool) -> (r: (Announce, ArmStep))
        ensures
            (*final(self), r.0, r.1) == spec_on_build(*old(self), ok),
            final(self).window_mode == old(self).window_mode,
            ok ==> r.1 == ArmStep::Pump,
            !ok && old(self).window_mode ==> r.1 == ArmStep::Wait,
            !ok && !old(self).window_mode ==> r.1 == ArmStep::Finish,
            old(self).announced ==> r.0 == Announce::Nothing && final(self).announced,
            !old(self).announced && (ok || old(self).window_mode) ==> r.0 == Announce::Ready
                && final(self).announced,
            !old(self).announced && !ok && !old(self).window_mode ==> r.0 == Announce::Failed,
    {
        if ok {
            let a = if self.announced {
                Announce::Nothing
            } else {
                Announce::Ready
            };
            self.announced = true;
            (a, ArmStep::Pump)
        } else if !self.window_mode {
            let a = if self.announced {
                Announce::Nothing
            } else {
                Announce::Failed
            };
            (a, ArmStep::Finish)
        } else {
            let a = if self.announced {
                Announce::Nothing
            } else {
                Announce::Ready
            };
            self.announced = true;
            (a, ArmStep::Wait)
        }
    }

    /// After a pipeline stopped pumping: the thread ends on a stop request or in monitor
    /// mode, and otherwise waits and rebuilds.
    pub fn after_pump(&self, stop_requested: bool) -> (r: ArmStep)
        ensures
            r == if stop_requested || !self.window_mode {
                ArmStep::Finish
            } else {
                ArmStep::Wait
            },
    {
        if stop_requested || !self.window_mode {
            ArmStep::Finish
        } else {
            ArmStep::Wait
        }
    }
}

// ---------------------------------------------------------------------------
// Focus
// ---------------------------------------------------------------------------

/// How often the window's minimised state is checked (250 ms).
pub const FOCUS_CHECK_NS: i64 = 250_000_000;

/// How often the out-of-focus card is encoded while the game is minimised (500 ms).
pub const CARD_INTERVAL_NS: i64 = 500_000_000;

/// The largest clock value and frame time the focus tracker takes.
pub open spec fn time_limit() -> int {
    0x4000_0000_0000_0000
}

/// Time passed from `since` to `now`, never negative (`Instant::elapsed`).
pub open spec fn elapsed(since: i64, now: i64) -> int {
    if now > since {
        now - since
    } else {
        0
    }
}

/// The focus tracker of a window replay.
pub struct FocusState {
    /// The game window was minimised (or hidden) at the last check.
    pub minimized: bool,
    /// When the window was last checked.
    pub last_check: i64,
    /// A real frame has been received.
    pub has_frame: bool,
    /// The capture time (100 ns ticks) of the last real frame.
    pub last_time: i64,
    /// When the last real frame arrived.
    pub anchor: i64,
    /// The card has been composed from the last real frame.
    pub card_ready: bool,
    /// When the card was last encoded.
    pub last_card_emit: i64,
    /// The next encoded frame must be a keyframe (set on entering and leaving the card).
    pub force_key: bool,
}

impl FocusState {
    /// The clock values and frame time are within bounds.
    pub open spec fn wf(&self) -> bool {
        &&& -time_limit() / 2 <= self.last_check <= time_limit()
        &&& -time_limit() <= self.last_time <= time_limit()
        &&& -time_limit() / 2 <= self.anchor <= time_limit()
        &&& -time_limit() / 2 <= self.last_card_emit <= time_limit()
    }

    /// The tracker at time `now`: not minimised, no frame, no card.
    pub fn new(now: i64) -> (s: FocusState)
        requires
            0 <= now <= time_limit(),
        ensures
            s.wf(),
            s == (FocusState {
                minimized: false,
                last_check: now,
                has_frame: false,
                last_time: 0,
                anchor: now,
                card_ready: false,
                last_card_emit: now,
                force_key: false,
            }),
    {
        FocusState {
            minimized: false,
            last_check: now,
            has_frame: false,
            last_time: 0,
            anchor: now,
            card_ready: false,
            last_card_emit: now,
            force_key: false,
        }
    }

    /// A real frame with capture time `time` arrived at `now`.
    pub fn note_real_frame(&mut self, time: i64, now: i64)
        requires
            old(self).wf(),
            -time_limit() <= time <= time_limit(),
            0 <= now <= time_limit(),
        ensures
            final(self).wf(),
            *final(self) == (FocusState { has_frame: true, last_time: time, anchor: now, ..*old(self) }),
    {
        self.has_frame = true;
        self.last_time = time;
        self.anchor = now;
    }

    /// Whether the window is to be checked now: only in window mode, at most every
    /// `FOCUS_CHECK_NS`; a check is recorded as made.
    pub fn check_due(&mut self, window_mode: bool, now: i64) -> (r: bool)
        requires
            old(self).wf(),
            0 <= now <= time_limit(),
        ensures
            final(self).wf(),
            r == (window_mode && elapsed(old(self).last_check, now) >= FOCUS_CHECK_NS),
            r ==> *final(self) == (FocusState { last_check: now, ..*old(self) }),
            !r ==> *final(self) == *old(self),
    {
        let gone: i64 = if now > self.last_check {
            now - self.last_check
        } else {
            0
        };
        if !window_mode || gone < FOCUS_CHECK_NS {
            return false;
        }
        self.last_check = now;
        true
    }

    /// The result of a check: `now_min` says whether the window is minimised (or
    /// hidden). On minimising, the card is no longer ready and must be composed again
    /// from the last real frame: the result says to render it when there is a card and a
    /// frame to compose it from. On coming back, the next real frame starts a new group
    /// of pictures.
    pub fn observe(&mut self, now_min: bool, card_available: bool) -> (render: bool)
        requires
            old(self).wf(),
        ensures
            final(self).wf(),
            render == (now_min && !old(self).minimized && card_available && old(self).has_frame),
            final(self).minimized == now_min,
            final(self).card_ready == if now_min && !old(self).minimized {
                false
            } else {
                old(self).card_ready
            },
            final(self).force_key == (old(self).force_key || (!now_min && old(self).minimized)),
            final(self).last_check == old(self).last_check,
            final(self).has_frame == old(self).has_frame,
            final(self).last_time == old(self).last_time,
            final(self).anchor == old(self).anchor,
            final(self).last_card_emit == old(self).last_card_emit,
    {
        let mut render = false;
        if now_min && !self.minimized {
            self.card_ready = false;
            render = card_available && self.has_frame;
        } else if !now_min && self.minimized {
            self.force_key = true;
        }
        self.minimized = now_min;
        render
    }

    /// The card was composed at `now`: it is ready, the next frame is a keyframe, and
    /// the first card is due at once.
    pub fn card_rendered(&mut self, now: i64)
        requires
            old(self).wf(),
            0 <= now <= time_limit(),
        ensures
            final(self).wf(),
            *final(self) == (FocusState {
                card_ready: true,
                force_key: true,
                last_card_emit: (now - CARD_INTERVAL_NS) as i64,
                ..*old(self)
            }),
    {
        self.card_ready = true;
        self.force_key = true;
        self.last_card_emit = now - CARD_INTERVAL_NS;
    }

    /// The capture time at which to encode the card now, if it is due: while minimised
    /// with the card ready, every `CARD_INTERVAL_NS`; the time continues the last real
    /// frame's by the time passed since it arrived.
    pub fn card_due(&mut self, now: i64) -> (r: Option<i64>)
        requires
            old(self).wf(),
            0 <= now <= time_limit(),
        ensures
            final(self).wf(),
            (old(self).minimized && old(self).card_ready && elapsed(old(self).last_card_emit, now)
                >= CARD_INTERVAL_NS) ==> {
                &&& r == Some((old(self).last_time + elapsed(old(self).anchor, now) / 100) as i64)
                &&& *final(self) == (FocusState { last_card_emit: now, ..*old(self) })
            },
            !(old(self).minimized && old(self).card_ready && elapsed(old(self).last_card_emit, now)
                >= CARD_INTERVAL_NS) ==> r is None && *final(self) == *old(self),
    {
        let since_card: i64 = if now > self.last_card_emit {
            now - self.last_card_emit
        } else {
            0
        };
        if !self.minimized || !self.card_ready || since_card < CARD_INTERVAL_NS {
            return None;
        }
        self.last_card_emit = now;
        let since_frame: i64 = if now > self.anchor {
            now - self.anchor
        } else {
            0
        };
        Some(self.last_time + since_frame / 100)
    }

    /// Whether the next frame must be a keyframe; true once per transition.
    pub fn take_force_key(&mut self) -> (r: bool)
        requires
            old(self).wf(),
        ensures
            final(self).wf(),
            r == old(self).force_key,
            *final(self) == (FocusState { force_key: false, ..*old(self) }),
    {
        let r = self.force_key;
        self.force_key = false;
        r
    }
}


// ---------------------------------------------------------------------------
// Pipeline
// ---------------------------------------------------------------------------

/// Where the converter's NV12 output samples come from.
#[derive(PartialEq, Eq, Structural, Clone, Copy, Debug)]
pub enum Nv12Pool {
    /// The converter provides its own samples.
    Provided,
    /// A pool of samples in system memory (the software encoder reads no textures).
    Cpu,
    /// A pool of GPU textures.
    Gpu,
}

/// The NV12 sample pool of a replay pipeline.
pub fn nv12_pool(converter_provides: bool, software_encoder: bool) -> (r: Nv12Pool)
    ensures
        r == if converter_provides {
            Nv12Pool::Provided
        } else if software_encoder {
            Nv12Pool::Cpu
        } else {
            Nv12Pool::Gpu
        },
{
    if converter_provides {
        Nv12Pool::Provided
    } else if software_encoder {
        Nv12Pool::Cpu
    } else {
        Nv12Pool::Gpu
    }
}

} // verus!
