//! Small pieces: chart selections, slot arithmetic, breadth strings,
//! hypothesis titles, log sink answers.

use std::sync::Arc;
use tick_compare::contracts::ports::{durable_result, AppendResult};
use tick_compare::contracts::types::{LogMetadata, LogRecord, MonoNs, UtcMs};
use tick_compare::metrics::burst::MoveBreadth;
use tick_compare::metrics::hypothesis::HypothesisType;
use tick_compare::tick::candle::calculate_slot_start;
use tick_compare::ui::chart::{BottomMetric, ChartXAxisMode};

#[test]
fn bottom_metric_shortcuts_and_cycling() {
    let mut m = BottomMetric::default();
    assert_eq!(m, BottomMetric::MidDiff);
    for n in 1..=7u32 {
        let x = BottomMetric::from_key_number(n).unwrap();
        assert_eq!(x.key_number(), n);
        assert!(x.label().starts_with(&format!("{}:", n)));
    }
    assert_eq!(BottomMetric::from_key_number(0), None);
    assert_eq!(BottomMetric::from_key_number(8), None);
    for _ in 0..7 {
        m = m.next();
    }
    assert_eq!(m, BottomMetric::MidDiff);
    assert_eq!(m.prev(), BottomMetric::QuotePersistence);
    assert_eq!(m.next().prev(), m);
    assert_eq!(BottomMetric::LeadLag.title(), "Lead / Lag Diagnostics");
    assert_eq!(ChartXAxisMode::default().label(), "Receive time");
    assert_eq!(ChartXAxisMode::TickCount.label(), "Tick count");
}

#[test]
fn slot_starts() {
    assert_eq!(calculate_slot_start(UtcMs(61_500), 60_000), UtcMs(60_000));
    assert_eq!(calculate_slot_start(UtcMs(-1), 1_000), UtcMs(-1_000));
    assert_eq!(calculate_slot_start(UtcMs(-1_000), 1_000), UtcMs(-1_000));
    assert_eq!(calculate_slot_start(UtcMs(7), -5), UtcMs(5));
}

#[test]
fn breadth_and_titles() {
    let b = MoveBreadth { up_count: 4, down_count: 1, stale_count: 0, total_brokers: 4 };
    assert_eq!(b.up_ratio_str(), "4/4");
    assert_eq!(b.down_ratio_str(), "1/4");
    assert_eq!(HypothesisType::PossibleSpreadFirstResponse.default_title(), "Possible Spread-First Response");
    assert_eq!(HypothesisType::PossibleFiltering.default_title(), "Possible Quote Filtering");
}

#[test]
fn durable_answers() {
    let rec = Arc::new(LogRecord::Metadata(LogMetadata {
        config_epoch: 0,
        observed_mono_ns: MonoNs(0),
        toml_text: String::new(),
    }));
    assert_eq!(durable_result(AppendResult::<Arc<LogRecord>>::Accepted), Ok(()));
    assert_eq!(durable_result(AppendResult::Full(rec.clone())), Err("Log queue is full".to_string()));
    assert_eq!(durable_result(AppendResult::Fault(rec, "disk".to_string())), Err("disk".to_string()));
}
