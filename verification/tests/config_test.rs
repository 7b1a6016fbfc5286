//! Configuration defaults and validation.

use tick_compare::contracts::config::{AppConfig, BrokerConfig, HistoryConfig, SlotRetention};

#[test]
fn test_default_config_valid() {
    let cfg = AppConfig::default();
    assert!(cfg.validate().is_ok());
}

#[test]
fn test_duplicate_broker_id_rejected() {
    let mut cfg = AppConfig::default();
    cfg.brokers[1].id = cfg.brokers[0].id;
    assert!(cfg.validate().is_err());
}

#[test]
fn test_duplicate_broker_port_rejected() {
    let mut cfg = AppConfig::default();
    cfg.mt5.auto_deploy = false;
    cfg.brokers[1].port = cfg.brokers[0].port;
    assert!(cfg.validate().is_err());
}

fn err(patch: impl Fn(&mut AppConfig)) -> String {
    let mut cfg = AppConfig::default();
    patch(&mut cfg);
    cfg.validate().unwrap_err()
}

#[test]
fn every_refusal_with_its_message() {
    assert_eq!(err(|c| { c.brokers.pop(); }), "At least 2 brokers must be configured");
    assert_eq!(err(|c| c.brokers[0].id = 0), "Broker id 0 is reserved and invalid");
    assert_eq!(err(|c| c.brokers[1].id = 1), "Duplicate broker id: 1");
    assert_eq!(err(|c| c.brokers[1].port = 39001), "Duplicate broker port: 39001");
    assert_eq!(err(|c| c.brokers[1].digits = 9), "Broker 2 digits invalid: 9");
    assert_eq!(err(|c| c.brokers[0].point_size_bits = (-0.5f64).to_bits()), "Broker 1 point_size must be positive");
    assert_eq!(err(|c| c.brokers[0].pip_size_bits = 0.0f64.to_bits()), "Broker 1 pip_size must be positive");
    assert_eq!(err(|c| c.active_pair = (2, 2)), "Active pair cannot have the same broker for both sides");
    assert_eq!(err(|c| c.active_pair = (5, 2)), "Active pair broker A (5) not in brokers list");
    assert_eq!(err(|c| c.active_pair = (1, 6)), "Active pair broker B (6) not in brokers list");
    assert_eq!(err(|c| c.matcher.trigger_move_points_bits = (-1.0f64).to_bits()), "trigger_move_points must be positive");
    assert_eq!(err(|c| c.matcher.matching_window_ms = 0), "matching_window_ms must be positive");
    assert_eq!(err(|c| c.matcher.ema_alpha_bits = 1.5f64.to_bits()), "ema_alpha must be in (0.0, 1.0]");
    assert_eq!(err(|c| c.matcher.ema_alpha_bits = f64::NEG_INFINITY.to_bits()), "ema_alpha must be in (0.0, 1.0]");
}

#[test]
fn nan_settings_pass_like_comparisons_do() {
    let mut cfg = AppConfig::default();
    cfg.brokers[0].point_size_bits = f64::NAN.to_bits();
    cfg.matcher.ema_alpha_bits = 1.0f64.to_bits();
    assert!(cfg.validate().is_ok());
}

#[test]
fn section_defaults() {
    let h = HistoryConfig::default();
    assert_eq!(
        h.retentions,
        vec![
            SlotRetention { period_ms: 1000, slots: 60 },
            SlotRetention { period_ms: 5000, slots: 24 },
            SlotRetention { period_ms: 10000, slots: 12 },
            SlotRetention { period_ms: 60000, slots: 10 },
        ]
    );
    let b = BrokerConfig::default();
    assert_eq!(b.name, "Broker1");
    assert_eq!(f64::from_bits(b.point_size_bits), 0.001);
    assert_eq!(f64::from_bits(b.pip_size_bits), 0.01);
    let c = AppConfig::default();
    assert_eq!(f64::from_bits(c.matcher.trigger_move_points_bits), 2.0);
    assert_eq!(f64::from_bits(c.matcher.ema_alpha_bits), 0.1);
    assert_eq!(c.brokers[1].symbol, "USDJPY.pro");
}
