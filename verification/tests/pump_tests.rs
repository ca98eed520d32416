use flashback::pump::{Pump, PumpAction, RoundView};

#[test]
fn hardware_pump_feeds_only_against_credits() {
    let mut p = Pump::new(60, true);
    // No credit yet: nothing is fed.
    assert_eq!(p.begin(RoundView::Live { cur: 3 }), PumpAction::Wait);
    p.on_need_input();
    p.on_need_input();
    assert_eq!(p.begin(RoundView::Live { cur: 3 }), PumpAction::Feed { slot: 0, pts: 0, card: false });
    assert_eq!(p.fed(true), PumpAction::Feed { slot: 1, pts: 166_666, card: false });
    // The credits are used up before the clock's slot is reached.
    assert_eq!(p.fed(true), PumpAction::Wait);
    assert_eq!(p.need, 0);
    assert_eq!(p.cadence.emitted, 1);
    assert_eq!(p.cadence.emitted_pts, 166_666);
}

#[test]
fn hardware_pump_ends_the_round_on_a_refused_frame() {
    let mut p = Pump::new(60, true);
    p.on_need_input();
    p.on_need_input();
    assert_eq!(p.begin(RoundView::Live { cur: 5 }), PumpAction::Feed { slot: 0, pts: 0, card: false });
    assert_eq!(p.fed(false), PumpAction::Wait);
    assert_eq!(p.need, 2);
    assert_eq!(p.cadence.emitted, -1);
}

#[test]
fn software_pump_feeds_every_slot_up_to_the_clock() {
    let mut p = Pump::new(60, false);
    assert_eq!(p.begin(RoundView::Live { cur: 2 }), PumpAction::Feed { slot: 0, pts: 0, card: false });
    // A failed encode still counts the slot.
    assert_eq!(p.fed(false), PumpAction::Feed { slot: 1, pts: 166_666, card: false });
    assert_eq!(p.fed(true), PumpAction::Feed { slot: 2, pts: 333_333, card: false });
    assert_eq!(p.fed(true), PumpAction::Wait);
    assert_eq!(p.cadence.emitted, 2);
    // Never ahead of the clock.
    assert_eq!(p.begin(RoundView::Live { cur: 2 }), PumpAction::Wait);
}

#[test]
fn pump_skips_ahead_when_a_second_behind() {
    let mut p = Pump::new(60, false);
    assert_eq!(
        p.begin(RoundView::Live { cur: 100 }),
        PumpAction::Feed { slot: 100, pts: 16_666_666, card: false }
    );
    assert_eq!(p.cadence.emitted, 99);
    assert_eq!(p.fed(true), PumpAction::Wait);
}

#[test]
fn pump_feeds_the_card_while_minimized() {
    let mut p = Pump::new(60, true);
    assert!(!p.wants_card(true));
    p.on_need_input();
    assert!(p.wants_card(true));
    assert!(!p.wants_card(false));
    assert_eq!(
        p.begin(RoundView::Minimized { elapsed: Some(10), card_due: true }),
        PumpAction::Feed { slot: 11, pts: 1_833_333, card: true }
    );
    assert_eq!(p.fed(true), PumpAction::Wait);
    assert_eq!(p.need, 0);
    // Without a credit the card waits, and the slot pointer does not go back.
    assert_eq!(p.begin(RoundView::Minimized { elapsed: Some(5), card_due: true }), PumpAction::Wait);
    assert_eq!(p.cadence.emitted, 11);
    assert_eq!(p.begin(RoundView::Idle), PumpAction::Wait);
}

#[test]
fn pump_anchors_its_clock_once() {
    let mut p = Pump::new(60, false);
    assert!(!p.clock_started);
    assert!(p.anchor_clock());
    assert!(!p.anchor_clock());
    assert!(p.clock_started);
}
