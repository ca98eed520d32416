//! The decisions of the replay encoder's pump: which slot of the constant-frame-rate
//! grid to feed next, with which frame and time, and when to wait for the next round.
//!
//! Each round the driving loop checks the focus, drains the captured frames and the
//! encoder's events (each input request is a credit, `on_need_input`), then calls
//! `begin` with what it saw and performs the action returned; after each feed it
//! reports the outcome to `fed`, which returns the next action.
use vstd::prelude::*;
use crate::media::{cadence_slot_ok, cfr_pts, lemma_cfr_pts_step, max_int, spec_cfr_pts, Cadence};

verus! {

/// What the loop saw this round, once frames and events are drained.
#[derive(PartialEq, Eq, Structural, Clone, Copy, Debug)]
pub enum RoundView {
    /// No real frame has arrived yet (or none to repeat): nothing to feed.
    Idle,
    /// The game is minimised. `elapsed` is the clock's slot when the clock has started;
    /// `card_due` says the focus card is due now and there is a card to feed.
    Minimized { elapsed: Option<i64>, card_due: bool },
    /// There is a real frame to feed (the latest, repeated when none newer came), and
    /// the clock, started with the first such round, stands at slot `cur`.
    Live { cur: i64 },
}

/// What the pump asks of the loop.
#[derive(PartialEq, Eq, Structural, Clone, Copy, Debug)]
pub enum PumpAction {
    /// Nothing more this round: sleep until the next one.
    Wait,
    /// Convert and feed a frame for slot `slot` with presentation time `pts`: the focus
    /// card when `card`, else the latest real frame. Report the outcome to `fed`.
    Feed { slot: i64, pts: i64, card: bool },
}

/// The pump of the replay encoder.
pub struct Pump {
    /// The frame rate of the slot grid.
    pub fps: u32,
    /// The encoder is asynchronous: it takes an input only against a credit.
    pub credit_limited: bool,
    /// Input requests received and not yet used.
    pub need: i32,
    /// The last slot fed and its time.
    pub cadence: Cadence,
    /// The clock's slot in the round in progress.
    pub cur: i64,
    /// The feed asked for and not yet reported: slot, time and whether it is the card.
    pub pending: Option<(i64, i64, bool)>,
    /// The clock has been anchored (at the first real frame fed a round).
    pub clock_started: bool,
    /// The feeds that counted, in order: slot, time, whether it was the card, and the
    /// clock's slot when it was fed.
    pub fed_log: Ghost<Seq<(int, int, bool, int)>>,
    /// The input requests received so far.
    pub granted: Ghost<nat>,
}

/// Slot times are ordered, and at a frame rate of at most one frame per tick the slots
/// after slot -1 lie at least one tick apart.
proof fn lemma_grid_order(a: int, b: int, fps: u32)
    requires
        -1 <= a <= b,
        0 < fps <= 10_000_000,
    ensures
        max_int(spec_cfr_pts(a, fps), -1) <= max_int(spec_cfr_pts(b, fps), -1),
        a < b ==> max_int(spec_cfr_pts(a, fps), -1) + 1 <= spec_cfr_pts(b, fps),
        b >= 0 ==> spec_cfr_pts(b, fps) >= 0,
    decreases b - a,
{
    let f = fps as int;
    if b >= 0 {
        assert(b * 10_000_000 >= 0) by (nonlinear_arith)
            requires
                b >= 0,
        ;
    }
    if a == -1 {
        assert(10_000_000int / f >= 1) by (nonlinear_arith)
            requires
                0 < f <= 10_000_000,
        ;
        assert(spec_cfr_pts(-1, fps) <= -1);
    }
    if a < b {
        lemma_grid_order(a + 1, b, fps);
        if a >= 0 {
            lemma_cfr_pts_step(a, fps);
            assert(10_000_000int / f >= 1) by (nonlinear_arith)
                requires
                    0 < f <= 10_000_000,
            ;
            assert(spec_cfr_pts(a, fps) >= 0) by {
                assert(a * 10_000_000 >= 0) by (nonlinear_arith)
                    requires
                        a >= 0,
                ;
            }
        } else {
            assert(spec_cfr_pts(0, fps) == 0);
        }
    }
}

impl Pump {
    /// The pump's invariant: the last slot is on the grid and its time is no later than
    /// the grid's (exactly the grid's once a slot was fed), credits are not negative,
    /// and a pending feed is the next slot at the grid's time, never ahead of the clock
    /// for a real frame, and covered by a credit when the encoder needs them.
    pub open spec fn wf(&self) -> bool {
        &&& 0 < self.fps <= 10_000_000
        &&& cadence_slot_ok(self.cadence.emitted as int)
        &&& self.cadence.emitted_pts <= max_int(spec_cfr_pts(self.cadence.emitted as int, self.fps), -1)
        &&& self.need >= 0
        &&& cadence_slot_ok(self.cur as int)
        &&& match self.pending {
            Some((slot, pts, card)) => {
                &&& slot == self.cadence.emitted + 1
                &&& cadence_slot_ok(slot as int)
                &&& pts == spec_cfr_pts(slot as int, self.fps)
                &&& (!card ==> slot <= self.cur)
                &&& (self.credit_limited ==> self.need > 0)
            },
            None => true,
        }
        &&& self.log_ok()
    }

    /// What the record of feeds keeps: slots and times strictly increase, every time is
    /// its slot's grid time, a real frame was never ahead of the clock, the last feed is
    /// no later than the pump's last slot and time, and the hardware encoder took no
    /// more frames than it asked for (each request not yet used is still a credit).
    pub open spec fn log_ok(&self) -> bool {
        let log = self.fed_log@;
        &&& forall|i: int, j: int|
            0 <= i < j < log.len() ==> (#[trigger] log[i]).0 < (#[trigger] log[j]).0 && log[i].1 < log[j].1
        &&& forall|i: int|
            0 <= i < log.len() ==> (#[trigger] log[i]).1 == spec_cfr_pts(log[i].0, self.fps) && (!log[i].2
                ==> log[i].0 <= log[i].3)
        &&& log.len() > 0 ==> log.last().0 <= self.cadence.emitted && log.last().1 <= self.cadence.emitted_pts
        &&& self.credit_limited ==> log.len() + self.need == self.granted@
    }

    /// Room for one more slot after the last one fed.
    pub open spec fn room(&self) -> bool {
        cadence_slot_ok(self.cadence.emitted + 1)
    }

    /// Whether there is room for one more slot (see `room`). Only after centuries of
    /// feeding would there be none.
    pub fn has_room(&self) -> (r: bool)
        requires
            self.wf(),
        ensures
            r == self.room(),
    {
        self.cadence.emitted <= i64::MAX / 10_000_000 - 3
    }

    /// A pump at frame rate `fps`: nothing fed, no credit, the clock not started.
    pub fn new(fps: u32, credit_limited: bool) -> (p: Pump)
        requires
            0 < fps <= 10_000_000,
        ensures
            p.wf(),
            p.fps == fps,
            p.credit_limited == credit_limited,
            p.need == 0,
            p.cadence.emitted == -1,
            p.cadence.emitted_pts == -1,
            p.cur == -1,
            p.pending is None,
            p.fed_log@.len() == 0,
            p.granted@ == 0,
            !p.clock_started,
    {
        Pump {
            fps,
            credit_limited,
            need: 0,
            cadence: Cadence::new(),
            cur: -1,
            pending: None,
            clock_started: false,
            fed_log: Ghost(Seq::empty()),
            granted: Ghost(0),
        }
    }

    /// The encoder asked for one more input.
    pub fn on_need_input(&mut self)
        requires
            old(self).wf(),
            old(self).need < i32::MAX,
        ensures
            final(self).wf(),
            *final(self) == (Pump {
                need: (old(self).need + 1) as i32,
                granted: Ghost(old(self).granted@ + 1),
                ..*old(self)
            }),
    {
        self.need = self.need + 1;
        self.granted = Ghost(self.granted@ + 1);
    }

    /// Whether the clock is to be anchored now, when a round first has a real frame:
    /// true once in the pump's life (the loop then takes the time and stores the last
    /// real frame's capture time as the video's zero).
    pub fn anchor_clock(&mut self) -> (first: bool)
        requires
            old(self).wf(),
        ensures
            final(self).wf(),
            first == !old(self).clock_started,
            *final(self) == (Pump { clock_started: true, ..*old(self) }),
    {
        let first = !self.clock_started;
        self.clock_started = true;
        first
    }

    /// Whether the encoder can take an input now.
    pub open spec fn can_take(&self) -> bool {
        !self.credit_limited || self.need > 0
    }

    /// Whether to ask the focus tracker if the card is due: only while minimised and
    /// when the encoder can take an input (asking moves the card's clock on, so a card
    /// asked for and not fed would be lost).
    pub fn wants_card(&self, minimized: bool) -> (r: bool)
        ensures
            r == (minimized && self.can_take()),
    {
        minimized && (!self.credit_limited || self.need > 0)
    }

    /// The next real frame's feed while the clock is at `self.cur`: the slot after the
    /// last one, at its grid time, when the clock has passed it and the encoder can
    /// take it.
    fn next_live(&mut self) -> (r: PumpAction)
        requires
            old(self).wf(),
            old(self).pending is None,
        ensures
            final(self).wf(),
            old(self).cadence.emitted < old(self).cur && old(self).can_take() ==> {
                let slot = old(self).cadence.emitted + 1;
                &&& r == PumpAction::Feed {
                    slot: slot as i64,
                    pts: spec_cfr_pts(slot, old(self).fps) as i64,
                    card: false,
                }
                &&& *final(self) == (Pump {
                    pending: Some((slot as i64, spec_cfr_pts(slot, old(self).fps) as i64, false)),
                    ..*old(self)
                })
            },
            !(old(self).cadence.emitted < old(self).cur && old(self).can_take()) ==> r == PumpAction::Wait
                && *final(self) == *old(self),
    {
        if self.cadence.emitted < self.cur && (!self.credit_limited || self.need > 0) {
            proof {
                lemma_grid_order(self.cadence.emitted as int, self.cadence.emitted + 1, self.fps);
            }
            let slot = self.cadence.emitted + 1;
            let pts = cfr_pts(slot, self.fps);
            self.pending = Some((slot, pts, false));
            PumpAction::Feed { slot, pts, card: false }
        } else {
            PumpAction::Wait
        }
    }

    /// The feeding part of a round, from what the loop saw. While minimised the slot
    /// pointer follows the clock (when started) without feeding repeats, and the card,
    /// when due and the encoder can take it, is fed in the slot after the last one. With
    /// a real frame, after skipping ahead when more than a second of slots is owed
    /// (`Cadence::resync`), the slots up to the clock's are fed one by one while the
    /// encoder can take them. Every time fed is its slot's time on the grid. The clock's
    /// slot while minimised must leave room for one slot after it, as `room` does.
    pub fn begin(&mut self, view: RoundView) -> (r: PumpAction)
        requires
            old(self).wf(),
            old(self).pending is None,
            old(self).room(),
            view matches RoundView::Minimized { elapsed: Some(e), .. } ==> cadence_slot_ok(e + 1),
            view matches RoundView::Live { cur } ==> cadence_slot_ok(cur as int),
        ensures
            final(self).wf(),
            final(self).fps == old(self).fps,
            final(self).credit_limited == old(self).credit_limited,
            final(self).need == old(self).need,
            final(self).fed_log == old(self).fed_log,
            final(self).granted == old(self).granted,
            final(self).clock_started == old(self).clock_started,
            final(self).cadence.emitted >= old(self).cadence.emitted,
            match view {
                RoundView::Idle => r == PumpAction::Wait && *final(self) == *old(self),
                RoundView::Minimized { elapsed, card_due } => {
                    let e = match elapsed {
                        Some(x) => max_int(old(self).cadence.emitted as int, x as int),
                        None => old(self).cadence.emitted as int,
                    };
                    &&& final(self).cadence.emitted == e
                    &&& final(self).cadence.emitted_pts == old(self).cadence.emitted_pts
                    &&& final(self).cur == old(self).cur
                    &&& if card_due && old(self).can_take() {
                        &&& r == PumpAction::Feed {
                            slot: (e + 1) as i64,
                            pts: spec_cfr_pts(e + 1, old(self).fps) as i64,
                            card: true,
                        }
                        &&& final(self).pending == Some(
                            ((e + 1) as i64, spec_cfr_pts(e + 1, old(self).fps) as i64, true),
                        )
                    } else {
                        r == PumpAction::Wait && final(self).pending is None
                    }
                },
                RoundView::Live { cur } => {
                    let e = if cur - old(self).cadence.emitted > old(self).fps {
                        cur - 1
                    } else {
                        old(self).cadence.emitted as int
                    };
                    &&& final(self).cur == cur
                    &&& final(self).cadence.emitted == e
                    &&& if e < cur && old(self).can_take() {
                        &&& r == PumpAction::Feed {
                            slot: (e + 1) as i64,
                            pts: spec_cfr_pts(e + 1, old(self).fps) as i64,
                            card: false,
                        }
                        &&& final(self).pending == Some(
                            ((e + 1) as i64, spec_cfr_pts(e + 1, old(self).fps) as i64, false),
                        )
                    } else {
                        r == PumpAction::Wait && final(self).pending is None
                    }
                },
            },
    {
        match view {
            RoundView::Idle => PumpAction::Wait,
            RoundView::Minimized { elapsed, card_due } => {
                if let Some(e) = elapsed {
                    proof {
                        lemma_grid_order(
                            self.cadence.emitted as int,
                            max_int(self.cadence.emitted as int, e as int),
                            self.fps,
                        );
                    }
                    self.cadence.follow_clock(e);
                }
                if card_due && (!self.credit_limited || self.need > 0) {
                    proof {
                        lemma_grid_order(self.cadence.emitted as int, self.cadence.emitted + 1, self.fps);
                    }
                    let slot = self.cadence.emitted + 1;
                    let pts = cfr_pts(slot, self.fps);
                    self.pending = Some((slot, pts, true));
                    PumpAction::Feed { slot, pts, card: true }
                } else {
                    PumpAction::Wait
                }
            },
            RoundView::Live { cur } => {
                proof {
                    if cur - self.cadence.emitted > self.fps {
                        lemma_grid_order(self.cadence.emitted as int, cur - 1, self.fps);
                    }
                }
                self.cadence.resync(cur, self.fps);
                self.cur = cur;
                self.next_live()
            },
        }
    }

    /// The outcome of the feed asked for: `ok` when the encoder took the frame. A frame
    /// taken is the new last slot and uses a credit; the software encoder's slot counts
    /// as fed whatever the outcome (its frame is dropped on failure), the hardware
    /// encoder's only when taken. After the card, or a frame the hardware encoder
    /// refused, the round ends; after a real frame the next slot up to the clock
    /// follows, while the encoder can take it.
    pub fn fed(&mut self, ok: bool) -> (r: PumpAction)
        requires
            old(self).wf(),
            old(self).pending is Some,
        ensures
            final(self).wf(),
            final(self).fps == old(self).fps,
            final(self).credit_limited == old(self).credit_limited,
            final(self).cur == old(self).cur,
            final(self).granted == old(self).granted,
            final(self).clock_started == old(self).clock_started,
            ({
                let (slot, pts, card) = old(self).pending->0;
                let taken = ok || !old(self).credit_limited;
                &&& taken ==> final(self).fed_log@ == old(self).fed_log@.push(
                    (slot as int, pts as int, card, old(self).cur as int),
                )
                &&& !taken ==> final(self).fed_log == old(self).fed_log
                &&& taken ==> final(self).cadence.emitted == slot && final(self).cadence.emitted_pts == pts
                &&& !taken ==> final(self).cadence == old(self).cadence
                &&& final(self).need == if ok && old(self).credit_limited {
                    old(self).need - 1
                } else {
                    old(self).need as int
                }
                &&& if card || !taken {
                    r == PumpAction::Wait && final(self).pending is None
                } else if slot < old(self).cur && (!old(self).credit_limited || old(self).need > 1) {
                    &&& r == PumpAction::Feed {
                        slot: (slot + 1) as i64,
                        pts: spec_cfr_pts(slot + 1, old(self).fps) as i64,
                        card: false,
                    }
                    &&& final(self).pending == Some(
                        ((slot + 1) as i64, spec_cfr_pts(slot + 1, old(self).fps) as i64, false),
                    )
                } else {
                    r == PumpAction::Wait && final(self).pending is None
                }
            }),
    {
        let (slot, pts, card) = match self.pending {
            Some(p) => p,
            None => (0, 0, false),
        };
        self.pending = None;
        let taken = ok || !self.credit_limited;
        if taken {
            proof {
                lemma_grid_order(self.cadence.emitted as int, slot as int, self.fps);
            }
            self.fed_log = Ghost(self.fed_log@.push((slot as int, pts as int, card, self.cur as int)));
            self.cadence.commit(slot, pts);
            if self.credit_limited {
                self.need = self.need - 1;
            }
        }
        if card || !taken {
            PumpAction::Wait
        } else {
            self.next_live()
        }
    }
}

/// What the pump feeds keeps to the encoder and the clock: a frame is asked for only
/// when the encoder can take it (a credit is at hand for the hardware encoder), it is
/// the slot after the last one fed, its time is that slot's time on the grid (so times
/// strictly increase and never drift), and a real frame is never ahead of the clock.
pub proof fn law_pump_feeds_keep_to_grid_and_credits(p: Pump)
    requires
        p.wf(),
        p.pending is Some,
    ensures
        ({
            let (slot, pts, card) = p.pending->0;
            &&& p.credit_limited ==> p.need > 0
            &&& slot == p.cadence.emitted + 1
            &&& pts == spec_cfr_pts(slot as int, p.fps)
            &&& pts > p.cadence.emitted_pts
            &&& !card ==> slot <= p.cur
        }),
{
    let (slot, pts, card) = p.pending->0;
    lemma_grid_order(p.cadence.emitted as int, slot as int, p.fps);
}

/// Over a whole run: every pump `new` makes and the methods change keeps `wf`, so at
/// any point of a run the frames fed so far have strictly increasing slots and times,
/// each time is its slot's time on the grid, no real frame was fed ahead of the clock
/// of its round, and the hardware encoder has taken no more frames than the input
/// requests it made.
pub proof fn law_pump_run(p: Pump)
    requires
        p.wf(),
    ensures
        forall|i: int, j: int|
            0 <= i < j < p.fed_log@.len() ==> (#[trigger] p.fed_log@[i]).1 < (#[trigger] p.fed_log@[j]).1
                && p.fed_log@[i].0 < p.fed_log@[j].0,
        forall|i: int|
            0 <= i < p.fed_log@.len() ==> (#[trigger] p.fed_log@[i]).1 == spec_cfr_pts(p.fed_log@[i].0, p.fps),
        forall|i: int| 0 <= i < p.fed_log@.len() && !(#[trigger] p.fed_log@[i]).2 ==> p.fed_log@[i].0 <= p.fed_log@[i].3,
        p.credit_limited ==> p.fed_log@.len() <= p.granted@,
{
}

} // verus!
