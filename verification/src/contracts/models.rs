//! Analysis enumerations shared by the candle, move and matching logic.

use crate::contracts::types::{AnalysisSegmentId, BrokerId, MonoNs, Sequence, UtcMs};
use std::collections::HashMap;
use vstd::prelude::*;

verus! {

/// Which price a candle follows.
#[derive(Debug, Clone, Copy, PartialEq, Eq, Structural)]
pub enum PriceMode {
    Bid,
    Ask,
    Mid,
}

/// Life cycle of a candle slot.
#[derive(Debug, Clone, Copy, PartialEq, Eq, Structural)]
pub enum SlotState {
    Empty,
    Active,
    Closed,
}

/// Whether a slot saw the whole of its period.
#[derive(Debug, Clone, Copy, PartialEq, Eq, Structural)]
pub enum SlotCoverage {
    Full,
    Partial,
}

/// Open, high, low and close of a candle, each an IEEE-754 binary64 bit
/// pattern, with the (UTC time, sequence) keys of the ticks that set the
/// open and the close.
#[derive(Debug, Clone, Copy, PartialEq, Eq)]
pub struct Ohlc {
    pub open_bits: u64,
    pub high_bits: u64,
    pub low_bits: u64,
    pub close_bits: u64,
    pub open_key: (UtcMs, Sequence),
    pub close_key: (UtcMs, Sequence),
}

/// One candle of one broker: a period-aligned time slot and what its ticks
/// made of it.
#[derive(Debug, Clone, Copy, PartialEq, Eq)]
pub struct CandleSlot {
    pub broker_id: BrokerId,
    pub segment_id: AnalysisSegmentId,
    pub period_ms: i64,
    pub start_utc_ms: UtcMs,
    pub state: SlotState,
    pub ohlc: Option<Ohlc>,
    pub tick_count: u64,
    pub revision: u64,
    pub coverage: SlotCoverage,
}

/// A window of aligned slots of one period, with each requested broker's
/// candle (or empty placeholder) for every slot.
#[derive(Debug, Clone)]
pub struct CandleView {
    pub period_ms: i64,
    pub slot_starts: Vec<UtcMs>,
    pub slots_by_broker: HashMap<BrokerId, Vec<CandleSlot>>,
}

/// Direction of a significant mid-price move.
#[derive(Debug, Clone, Copy, PartialEq, Eq, Structural)]
pub enum MoveDirection {
    Up,
    Down,
}

/// Which side of the quote drove a move.
#[derive(Debug, Clone, Copy, PartialEq, Eq, Structural)]
pub enum MoveQuality {
    BidOnly,
    AskOnly,
    BothSides,
    SpreadDriven,
}

/// A significant mid-price move of one broker. The IEEE-754 binary64
/// measurements are held as their bit patterns; the logic over moves reads
/// only the identifiers, the receive time and the direction.
#[derive(Debug, Clone, Copy, PartialEq, Eq, Structural)]
pub struct MoveEvent {
    pub segment_id: AnalysisSegmentId,
    pub broker_id: BrokerId,
    pub trigger_sequence: Sequence,
    pub rx_mono_ns: MonoNs,
    pub direction: MoveDirection,
    pub anchor_mid_bits: u64,
    pub current_mid_bits: u64,
    pub mid_delta_points_bits: u64,
    pub bid_delta_bits: u64,
    pub ask_delta_bits: u64,
    pub mid_delta_bits: u64,
    pub spread_delta_bits: u64,
    pub quality: MoveQuality,
}

/// A one-to-one pairing of a move of broker A with a move of broker B in
/// the same direction. `signed_delta_ns` is B's receive time minus A's:
/// positive where A moved first.
#[derive(Debug, Clone, Copy, PartialEq, Eq, Structural)]
pub struct LeadLagMatch {
    pub match_id: u64,
    pub leader: BrokerId,
    pub follower: BrokerId,
    pub leader_event: MoveEvent,
    pub follower_event: MoveEvent,
    pub t_leader: MonoNs,
    pub t_follower: MonoNs,
    pub signed_delta_ns: i64,
    pub abs_delta_ns: u64,
    pub segment_id: AnalysisSegmentId,
}

} // verus!
