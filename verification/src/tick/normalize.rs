//! Conversion of broker server time to UTC.

use crate::contracts::types::{NormalizedTick, ObservedTick, UtcMs};
use crate::text::{dec, push_dec, string_of};
use vstd::prelude::*;

verus! {

/// What normalizing a tick observed at broker time `broker_ms`, with offset
/// `utc_offset_sec` and verification state `verified`, yields: its UTC
/// time, or the message refusing it.
pub open spec fn normalized_time(broker_id: u32, broker_ms: i64, utc_offset_sec: i32, verified: bool) -> Result<i64, Seq<char>> {
    if !verified {
        Err("UTC offset not verified for broker "@ + dec(broker_id as nat))
    } else if broker_ms - utc_offset_sec * 1000 < i64::MIN || broker_ms - utc_offset_sec * 1000
        > i64::MAX {
        Err("Broker time UTC normalization arithmetic underflow"@)
    } else {
        Ok((broker_ms - utc_offset_sec * 1000) as i64)
    }
}

/// Stamps an observed tick with its UTC time: broker time less the
/// broker's verified offset from UTC.
pub fn normalize_tick(observed: &ObservedTick, utc_offset_sec: i32, verified: bool, normalization_epoch: u64) -> (r: Result<NormalizedTick, String>)
    ensures
        match normalized_time(observed.tick_id.broker_id, observed.record.broker_time_msc, utc_offset_sec, verified) {
            Ok(t) => r matches Ok(n) && n.observed == *observed && n.utc_ms == UtcMs(t)
                && n.normalization_epoch == normalization_epoch,
            Err(m) => r matches Err(e) && e@ == m,
        },
{
    if !verified {
        let mut m = string_of("UTC offset not verified for broker ");
        push_dec(&mut m, observed.tick_id.broker_id as u64);
        return Err(m);
    }
    let offset_ms = match (utc_offset_sec as i64).checked_mul(1000) {
        Some(v) => v,
        None => {
            return Err(string_of("UTC offset arithmetic overflow"));
        },
    };
    let utc_ms = match observed.record.broker_time_msc.checked_sub(offset_ms) {
        Some(v) => v,
        None => {
            return Err(string_of("Broker time UTC normalization arithmetic underflow"));
        },
    };
    Ok(NormalizedTick { observed: ObservedTick { ..*observed }, utc_ms: UtcMs(utc_ms), normalization_epoch })
}

} // verus!
