//! Candle slots: slot arithmetic, OHLC revisions, empty placeholders,
//! closing and retention.

use tick_compare::contracts::config::SlotRetention;
use tick_compare::contracts::models::SlotState;
use tick_compare::contracts::types::{
    BrokerId, MonoNs, NormalizedTick, ObservedTick, Sequence, SequenceDisposition, TickId,
    TickRecord, UtcMs,
};
use tick_compare::tick::candle::{calculate_slot_start, CandleBook};

fn make_test_tick(broker_id: BrokerId, seq: Sequence, utc_ms: i64, bid: f64, ask: f64) -> NormalizedTick {
    NormalizedTick {
        observed: ObservedTick {
            tick_id: TickId { broker_id, session_id: 1, sequence: seq },
            record: TickRecord {
                sequence: seq,
                broker_time_msc: utc_ms,
                ea_elapsed_us: 10,
                bid_bits: bid.to_bits(),
                ask_bits: ask.to_bits(),
                last_bits: 0.0f64.to_bits(),
                volume: 1,
                volume_real_bits: 1.0f64.to_bits(),
                flags: 0,
                reserved: 0,
            },
            rx_mono_ns: MonoNs(100),
            rx_unix_ns: None,
            connection_generation: 1,
            frame_index: 1,
            is_warmup: false,
            segment_id: 1,
            disposition: SequenceDisposition::New,
        },
        utc_ms: UtcMs(utc_ms),
        normalization_epoch: 1,
    }
}

/// The bid of the tick: the price of a candle that follows bids.
fn bid_price(t: &NormalizedTick) -> u64 {
    t.observed.record.bid_bits
}

#[test]
fn test_tc01_slot_math_and_ohlc_revisions() {
    assert_eq!(calculate_slot_start(UtcMs(999), 1000), UtcMs(0));
    assert_eq!(calculate_slot_start(UtcMs(1000), 1000), UtcMs(1000));
    assert_eq!(calculate_slot_start(UtcMs(-1), 1000), UtcMs(-1000));

    let mut book = CandleBook::new(vec![1000]);

    let t1 = make_test_tick(1, 1, 1200, 150.0, 150.02);
    book.on_tick(&t1, bid_price(&t1), UtcMs(1500));

    let t2 = make_test_tick(1, 2, 1800, 150.5, 150.52);
    book.on_tick(&t2, bid_price(&t2), UtcMs(1900));

    // A late tick at 1100 ms becomes the new open.
    let t3 = make_test_tick(1, 0, 1100, 149.5, 149.52);
    book.on_tick(&t3, bid_price(&t3), UtcMs(1950));

    let view = book.get_candle_view(1000, &[1], 1, UtcMs(1950));
    let slot = &view.slots_by_broker[&1][0];
    assert_eq!(slot.state, SlotState::Active);
    assert_eq!(slot.tick_count, 3);
    assert_eq!(slot.revision, 3);

    let ohlc = slot.ohlc.unwrap();
    assert_eq!(f64::from_bits(ohlc.open_bits), 149.5, "Late tick at 1100ms must update Open");
    assert_eq!(f64::from_bits(ohlc.high_bits), 150.5);
    assert_eq!(f64::from_bits(ohlc.low_bits), 149.5);
    assert_eq!(f64::from_bits(ohlc.close_bits), 150.5);
}

#[test]
fn test_tc02_empty_slots_and_aligned_x_axis() {
    let mut book = CandleBook::new(vec![1000]);

    let t = make_test_tick(1, 1, 2500, 150.0, 150.02);
    book.on_tick(&t, bid_price(&t), UtcMs(2900));

    let view = book.get_candle_view(1000, &[1, 2], 3, UtcMs(2900));

    assert_eq!(view.slot_starts.len(), 3);
    assert_eq!(view.slot_starts, vec![UtcMs(0), UtcMs(1000), UtcMs(2000)]);

    let b2_slots = &view.slots_by_broker[&2];
    assert_eq!(b2_slots.len(), 3);
    for slot in b2_slots {
        assert!(slot.ohlc.is_none(), "Empty slot must not have synthetic OHLC");
        assert_eq!(slot.tick_count, 0);
    }
}

#[test]
fn test_tc03_slot_active_to_closed_advancement() {
    let mut book = CandleBook::new(vec![1000]);

    let t = make_test_tick(1, 1, 1500, 150.0, 150.02);
    book.on_tick(&t, bid_price(&t), UtcMs(1600));

    let view1 = book.get_candle_view(1000, &[1], 1, UtcMs(1600));
    assert_eq!(view1.slots_by_broker[&1][0].state, SlotState::Active);

    book.advance_utc(UtcMs(2100));

    let view2 = book.get_candle_view(1000, &[1], 2, UtcMs(2100));
    assert_eq!(view2.slots_by_broker[&1][0].start_utc_ms, UtcMs(1000));
    assert_eq!(view2.slots_by_broker[&1][0].state, SlotState::Closed);
    assert_eq!(view2.slots_by_broker[&1][1].start_utc_ms, UtcMs(2000));
    assert_eq!(view2.slots_by_broker[&1][1].state, SlotState::Active);
}

#[test]
fn test_tc04_retention_slots_preserved_to_left_edge() {
    let retentions = vec![SlotRetention { period_ms: 1000, slots: 60 }];
    let mut book = CandleBook::with_retentions(&retentions);

    for i in 1..=70i64 {
        let utc_ms = i * 1000;
        let t = make_test_tick(1, i as u64, utc_ms, 150.0 + (i as f64 * 0.01), 150.02 + (i as f64 * 0.01));
        book.on_tick(&t, bid_price(&t), UtcMs(utc_ms + 100));
    }

    let view = book.get_candle_view(1000, &[1], 60, UtcMs(70500));
    assert_eq!(view.slot_starts.len(), 60);

    let b1_slots = &view.slots_by_broker[&1];
    assert_eq!(b1_slots.len(), 60);

    for (i, slot) in b1_slots.iter().enumerate() {
        assert!(
            slot.ohlc.is_some(),
            "Slot at index {} (start_utc_ms = {:?}) must have OHLC and not disappear at the left edge",
            i,
            slot.start_utc_ms
        );
        assert_ne!(slot.state, SlotState::Empty);
    }
}

#[test]
fn retention_drops_slots_beyond_the_kept_count() {
    let mut book = CandleBook::with_retentions(&[SlotRetention { period_ms: 1000, slots: 3 }]);
    for i in 1..=5i64 {
        let t = make_test_tick(1, i as u64, i * 1000, 150.0, 150.02);
        book.on_tick(&t, bid_price(&t), UtcMs(i * 1000 + 10));
    }
    let view = book.get_candle_view(1000, &[1], 5, UtcMs(5010));
    let row = &view.slots_by_broker[&1];
    assert!(row[0].ohlc.is_none());
    assert!(row[1].ohlc.is_none());
    assert!(row[2].ohlc.is_some());
    assert!(row[4].ohlc.is_some());
}

#[test]
fn invalid_quotes_and_closed_slots() {
    let mut book = CandleBook::new(vec![1000, 5000]);
    // An ask below the bid is rejected.
    let crossed = make_test_tick(1, 1, 1200, 150.0, 149.0);
    book.on_tick(&crossed, bid_price(&crossed), UtcMs(1300));
    // A NaN bid is rejected.
    let nan = make_test_tick(1, 2, 1200, f64::NAN, 150.0);
    book.on_tick(&nan, bid_price(&nan), UtcMs(1300));
    let view = book.get_candle_view(1000, &[1], 1, UtcMs(1300));
    assert!(view.slots_by_broker[&1][0].ohlc.is_none());

    // A tick arriving after its slot ended lands in a closed slot.
    let late = make_test_tick(1, 3, 1200, 150.0, 150.02);
    book.on_tick(&late, bid_price(&late), UtcMs(2500));
    let view = book.get_candle_view(1000, &[1], 2, UtcMs(2500));
    assert_eq!(view.slots_by_broker[&1][0].state, SlotState::Closed);
    assert_eq!(view.slots_by_broker[&1][1].state, SlotState::Active);
    // The five-second period kept it too.
    let view5 = book.get_candle_view(5000, &[1], 1, UtcMs(2500));
    assert_eq!(view5.slots_by_broker[&1][0].tick_count, 1);
    assert_eq!(view5.slot_starts, vec![UtcMs(0)]);
}
