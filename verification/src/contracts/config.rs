//! Configuration: the sections with their defaults, and the checks a
//! configuration must pass. Binary64 settings are held as their bit
//! patterns and compared by the IEEE-754 order.

use crate::contracts::types::BrokerId;
use crate::text::{dec, push_dec, push_str, string_of};
use vstd::prelude::*;

verus! {

/// The binary64 with bit pattern `b` is a NaN.
pub open spec fn f64_is_nan(b: u64) -> bool {
    (b >> 52) & 0x7FF == 0x7FF && b & 0xF_FFFF_FFFF_FFFF != 0
}

/// The binary64 with bit pattern `b` is `<= 0.0`: a negative number,
/// either zero, or negative infinity; never a NaN.
pub open spec fn f64_le_zero(b: u64) -> bool {
    !f64_is_nan(b) && (b >> 63 == 1 || b == 0)
}

/// The binary64 with bit pattern `b` is `> 1.0`; never a NaN.
pub open spec fn f64_gt_one(b: u64) -> bool {
    !f64_is_nan(b) && b >> 63 == 0 && b > 0x3FF0_0000_0000_0000
}

pub(crate) fn is_nan_bits(b: u64) -> (r: bool)
    ensures
        r == f64_is_nan(b),
{
    (b >> 52) & 0x7FF == 0x7FF && b & 0xF_FFFF_FFFF_FFFF != 0
}

pub(crate) fn le_zero_bits(b: u64) -> (r: bool)
    ensures
        r == f64_le_zero(b),
{
    !is_nan_bits(b) && (b >> 63 == 1 || b == 0)
}

fn gt_one_bits(b: u64) -> (r: bool)
    ensures
        r == f64_gt_one(b),
{
    !is_nan_bits(b) && b >> 63 == 0 && b > 0x3FF0_0000_0000_0000
}

/// One broker feed: identity, listening endpoint, symbol and price grid.
#[derive(Debug, Clone, PartialEq)]
pub struct BrokerConfig {
    pub id: BrokerId,
    pub name: String,
    pub host: String,
    pub port: u16,
    pub symbol: String,
    pub digits: u32,
    pub point_size_bits: u64,
    pub pip_size_bits: u64,
    pub utc_offset_sec: i32,
    pub utc_verified: bool,
}

/// Bits of 0.001.
pub const POINT_0_001_BITS: u64 = 0x3F50_624D_D2F1_A9FC;

/// Bits of 0.01.
pub const PIP_0_01_BITS: u64 = 0x3F84_7AE1_47AE_147B;

fn broker(id: BrokerId, name: &str, port: u16, symbol: &str) -> (r: BrokerConfig)
    ensures
        r.id == id,
        r.name@ == name@,
        r.host@ == "127.0.0.1"@,
        r.port == port,
        r.symbol@ == symbol@,
        r.digits == 3,
        r.point_size_bits == POINT_0_001_BITS,
        r.pip_size_bits == PIP_0_01_BITS,
        r.utc_offset_sec == 0,
        !r.utc_verified,
{
    BrokerConfig {
        id,
        name: string_of(name),
        host: string_of("127.0.0.1"),
        port,
        symbol: string_of(symbol),
        digits: 3,
        point_size_bits: POINT_0_001_BITS,
        pip_size_bits: PIP_0_01_BITS,
        utc_offset_sec: 0,
        utc_verified: false,
    }
}

impl Default for BrokerConfig {
    fn default() -> (r: Self)
        ensures
            r.id == 1,
            r.name@ == "Broker1"@,
            r.host@ == "127.0.0.1"@,
            r.port == 39001,
            r.symbol@ == "USDJPY"@,
            r.digits == 3,
            r.point_size_bits == POINT_0_001_BITS,
            r.pip_size_bits == PIP_0_01_BITS,
            r.utc_offset_sec == 0,
            !r.utc_verified,
    {
        broker(1, "Broker1", 39001, "USDJPY")
    }
}

/// Move detection and lead/lag matching settings.
#[derive(Debug, Clone, PartialEq)]
pub struct MatcherConfig {
    pub trigger_move_points_bits: u64,
    pub matching_window_ms: u64,
    pub event_cooldown_ms: u64,
    pub ema_alpha_bits: u64,
    pub pending_event_capacity: usize,
}

impl Default for MatcherConfig {
    fn default() -> (r: Self)
        ensures
            r.trigger_move_points_bits == 0x4000_0000_0000_0000,
            r.matching_window_ms == 100,
            r.event_cooldown_ms == 20,
            r.ema_alpha_bits == 0x3FB9_9999_9999_999A,
            r.pending_event_capacity == 8192,
    {
        MatcherConfig {
            trigger_move_points_bits: 0x4000_0000_0000_0000,
            matching_window_ms: 100,
            event_cooldown_ms: 20,
            ema_alpha_bits: 0x3FB9_9999_9999_999A,
            pending_event_capacity: 8192,
        }
    }
}

/// Wire protocol limits and acknowledgement mode.
#[derive(Debug, Clone, PartialEq, Eq)]
pub struct ProtocolConfig {
    pub max_payload_length: u32,
    pub ack_mode: String,
    pub debug_resync_limit: u32,
}

impl Default for ProtocolConfig {
    fn default() -> (r: Self)
        ensures
            r.max_payload_length == 1_048_576,
            r.ack_mode@ == "off"@,
            r.debug_resync_limit == 65_536,
    {
        ProtocolConfig {
            max_payload_length: 1_048_576,
            ack_mode: crate::text::string_of("off"),
            debug_resync_limit: 65_536,
        }
    }
}

/// Per-broker ingress queue budgets.
#[derive(Debug, Clone, PartialEq, Eq)]
pub struct IngressConfig {
    pub max_frames_per_broker: usize,
    pub max_bytes_per_broker: usize,
    pub progress_interval_ms: u64,
}

impl Default for IngressConfig {
    fn default() -> (r: Self)
        ensures
            r.max_frames_per_broker == 256,
            r.max_bytes_per_broker == 8 * 1024 * 1024,
            r.progress_interval_ms == 1,
    {
        IngressConfig {
            max_frames_per_broker: 256,
            max_bytes_per_broker: 8 * 1024 * 1024,
            progress_interval_ms: 1,
        }
    }
}

/// Binary logger settings.
#[derive(Debug, Clone, PartialEq, Eq)]
pub struct LoggerConfig {
    pub enabled: bool,
    pub log_dir: String,
    pub max_queue_records: usize,
    pub max_queue_bytes: usize,
    pub flush_interval_ms: u64,
    pub shutdown_drain_timeout_ms: u64,
}

impl Default for LoggerConfig {
    fn default() -> (r: Self)
        ensures
            r.enabled,
            r.log_dir@ == "data/logs"@,
            r.max_queue_records == 1024,
            r.max_queue_bytes == 32 * 1024 * 1024,
            r.flush_interval_ms == 1000,
            r.shutdown_drain_timeout_ms == 5000,
    {
        LoggerConfig {
            enabled: true,
            log_dir: crate::text::string_of("data/logs"),
            max_queue_records: 1024,
            max_queue_bytes: 32 * 1024 * 1024,
            flush_interval_ms: 1000,
            shutdown_drain_timeout_ms: 5000,
        }
    }
}

/// Staleness and heartbeat timing.
#[derive(Debug, Clone, PartialEq, Eq)]
pub struct HealthConfig {
    pub stale_after_ms: u64,
    pub heartbeat_interval_ms: u64,
    pub heartbeat_timeout_ms: u64,
}

impl Default for HealthConfig {
    fn default() -> (r: Self)
        ensures
            r.stale_after_ms == 1000,
            r.heartbeat_interval_ms == 250,
            r.heartbeat_timeout_ms == 1500,
    {
        HealthConfig { stale_after_ms: 1000, heartbeat_interval_ms: 250, heartbeat_timeout_ms: 1500 }
    }
}

/// Display refresh and chart window settings.
#[derive(Debug, Clone, PartialEq)]
pub struct DisplayConfig {
    pub repaint_hz: u32,
    pub timeframe_ms: i64,
    pub visible_seconds: u64,
    pub always_on_top: bool,
}

impl Default for DisplayConfig {
    fn default() -> (r: Self)
        ensures
            r.repaint_hz == 60,
            r.timeframe_ms == 60000,
            r.visible_seconds == 60,
            !r.always_on_top,
    {
        DisplayConfig { repaint_hz: 60, timeframe_ms: 60000, visible_seconds: 60, always_on_top: false }
    }
}

/// How many candle slots of one period are kept.
#[derive(Debug, Clone, PartialEq, Eq, Structural)]
pub struct SlotRetention {
    pub period_ms: i64,
    pub slots: usize,
}

/// History retention settings.
#[derive(Debug, Clone, PartialEq, Eq)]
pub struct HistoryConfig {
    pub retentions: Vec<SlotRetention>,
    pub max_tick_ring_records: usize,
    pub ledger_capacity: usize,
}

/// The default candle retentions: one-second, five-second, ten-second and
/// one-minute slots.
pub open spec fn default_retentions() -> Seq<SlotRetention> {
    seq![
        SlotRetention { period_ms: 1000, slots: 60 },
        SlotRetention { period_ms: 5000, slots: 24 },
        SlotRetention { period_ms: 10000, slots: 12 },
        SlotRetention { period_ms: 60000, slots: 10 },
    ]
}

impl Default for HistoryConfig {
    fn default() -> (r: Self)
        ensures
            r.retentions@ == default_retentions(),
            r.max_tick_ring_records == 120_000,
            r.ledger_capacity == 16_384,
    {
        let mut retentions: Vec<SlotRetention> = Vec::new();
        retentions.push(SlotRetention { period_ms: 1000, slots: 60 });
        retentions.push(SlotRetention { period_ms: 5000, slots: 24 });
        retentions.push(SlotRetention { period_ms: 10000, slots: 12 });
        retentions.push(SlotRetention { period_ms: 60000, slots: 10 });
        assert(retentions@ =~= default_retentions());
        HistoryConfig { retentions, max_tick_ring_records: 120_000, ledger_capacity: 16_384 }
    }
}

/// Deployment of the terminal-side files.
#[derive(Debug, Clone, PartialEq, Eq)]
pub struct Mt5DeployConfig {
    pub auto_deploy: bool,
    pub custom_data_dirs: Vec<String>,
}

impl Default for Mt5DeployConfig {
    fn default() -> (r: Self)
        ensures
            r.auto_deploy,
            r.custom_data_dirs@.len() == 0,
    {
        Mt5DeployConfig { auto_deploy: true, custom_data_dirs: Vec::new() }
    }
}

/// The whole application configuration.
#[derive(Debug, PartialEq)]
pub struct AppConfig {
    pub brokers: Vec<BrokerConfig>,
    pub active_pair: (BrokerId, BrokerId),
    pub protocol: ProtocolConfig,
    pub ingress: IngressConfig,
    pub logger: LoggerConfig,
    pub matcher: MatcherConfig,
    pub health: HealthConfig,
    pub display: DisplayConfig,
    pub history: HistoryConfig,
    pub mt5: Mt5DeployConfig,
}

impl Default for AppConfig {
    fn default() -> (r: Self)
        ensures
            r.brokers@.len() == 2,
            r.brokers@[0].id == 1 && r.brokers@[0].name@ == "BrokerA"@ && r.brokers@[0].port
                == 39001 && r.brokers@[0].symbol@ == "USDJPY"@,
            r.brokers@[1].id == 2 && r.brokers@[1].name@ == "BrokerB"@ && r.brokers@[1].port
                == 39002 && r.brokers@[1].symbol@ == "USDJPY.pro"@,
            forall|i: int|
                0 <= i < 2 ==> {
                    let b = #[trigger] r.brokers@[i];
                    b.host@ == "127.0.0.1"@ && b.digits == 3 && b.point_size_bits
                        == POINT_0_001_BITS && b.pip_size_bits == PIP_0_01_BITS
                        && b.utc_offset_sec == 0 && !b.utc_verified
                },
            r.active_pair == (1u32, 2u32),
            r.matcher.trigger_move_points_bits == 0x4000_0000_0000_0000,
            r.matcher.matching_window_ms == 100,
            r.matcher.ema_alpha_bits == 0x3FB9_9999_9999_999A,
            r.health.stale_after_ms == 1000,
            r.history.ledger_capacity == 16_384,
            r.mt5.auto_deploy,
    {
        let mut brokers: Vec<BrokerConfig> = Vec::new();
        brokers.push(broker(1, "BrokerA", 39001, "USDJPY"));
        brokers.push(broker(2, "BrokerB", 39002, "USDJPY.pro"));
        AppConfig {
            brokers,
            active_pair: (1, 2),
            protocol: ProtocolConfig::default(),
            ingress: IngressConfig::default(),
            logger: LoggerConfig::default(),
            matcher: MatcherConfig::default(),
            health: HealthConfig::default(),
            display: DisplayConfig::default(),
            history: HistoryConfig::default(),
            mt5: Mt5DeployConfig::default(),
        }
    }
}

/// Some broker before index `i` has the id `id`.
pub open spec fn id_before(bs: Seq<BrokerConfig>, i: int, id: BrokerId) -> bool {
    exists|j: int| 0 <= j < i && #[trigger] bs[j].id == id
}

/// Some broker before index `i` listens on `port`.
pub open spec fn port_before(bs: Seq<BrokerConfig>, i: int, port: u16) -> bool {
    exists|j: int| 0 <= j < i && #[trigger] bs[j].port == port
}

/// Why broker `i` is refused, the brokers before it having passed.
pub open spec fn broker_error(bs: Seq<BrokerConfig>, i: int) -> Option<Seq<char>> {
    let b = bs[i];
    if b.id == 0 {
        Some("Broker id 0 is reserved and invalid"@)
    } else if id_before(bs, i, b.id) {
        Some("Duplicate broker id: "@ + dec(b.id as nat))
    } else if port_before(bs, i, b.port) {
        Some("Duplicate broker port: "@ + dec(b.port as nat))
    } else if b.digits == 0 || b.digits > 8 {
        Some("Broker "@ + dec(b.id as nat) + " digits invalid: "@ + dec(b.digits as nat))
    } else if f64_le_zero(b.point_size_bits) {
        Some("Broker "@ + dec(b.id as nat) + " point_size must be positive"@)
    } else if f64_le_zero(b.pip_size_bits) {
        Some("Broker "@ + dec(b.id as nat) + " pip_size must be positive"@)
    } else {
        None
    }
}

/// The first refusal among the brokers from `i` on.
pub open spec fn first_broker_error(bs: Seq<BrokerConfig>, i: int) -> Option<Seq<char>>
    decreases bs.len() - i,
{
    if i < 0 || i >= bs.len() {
        None
    } else {
        match broker_error(bs, i) {
            Some(m) => Some(m),
            None => first_broker_error(bs, i + 1),
        }
    }
}

/// Why the configuration `c` is refused, checks in order; `None` if it is
/// accepted.
pub open spec fn config_error(c: AppConfig) -> Option<Seq<char>> {
    let bs = c.brokers@;
    let (a, b) = c.active_pair;
    if bs.len() < 2 {
        Some("At least 2 brokers must be configured"@)
    } else if first_broker_error(bs, 0) is Some {
        first_broker_error(bs, 0)
    } else if a == b {
        Some("Active pair cannot have the same broker for both sides"@)
    } else if !id_before(bs, bs.len() as int, a) {
        Some("Active pair broker A ("@ + dec(a as nat) + ") not in brokers list"@)
    } else if !id_before(bs, bs.len() as int, b) {
        Some("Active pair broker B ("@ + dec(b as nat) + ") not in brokers list"@)
    } else if f64_le_zero(c.matcher.trigger_move_points_bits) {
        Some("trigger_move_points must be positive"@)
    } else if c.matcher.matching_window_ms == 0 {
        Some("matching_window_ms must be positive"@)
    } else if f64_le_zero(c.matcher.ema_alpha_bits) || f64_gt_one(c.matcher.ema_alpha_bits) {
        Some("ema_alpha must be in (0.0, 1.0]"@)
    } else {
        None
    }
}

/// Every broker has a non-zero id, 1 to 8 digits and positive point and
/// pip sizes, and no two brokers share an id or a port.
pub open spec fn brokers_valid(bs: Seq<BrokerConfig>) -> bool {
    &&& forall|i: int|
        0 <= i < bs.len() ==> {
            &&& #[trigger] bs[i].id != 0
            &&& 1 <= bs[i].digits <= 8
            &&& !f64_le_zero(bs[i].point_size_bits)
            &&& !f64_le_zero(bs[i].pip_size_bits)
        }
    &&& forall|i: int, j: int|
        0 <= i < j < bs.len() ==> #[trigger] bs[i].id != #[trigger] bs[j].id && bs[i].port
            != bs[j].port
}

/// The configuration is acceptable: at least two valid brokers, an active
/// pair of two different configured brokers, a positive trigger move and
/// matching window, and a smoothing factor in (0, 1].
pub open spec fn config_valid(c: AppConfig) -> bool {
    let bs = c.brokers@;
    let (a, b) = c.active_pair;
    &&& bs.len() >= 2
    &&& brokers_valid(bs)
    &&& a != b
    &&& id_before(bs, bs.len() as int, a)
    &&& id_before(bs, bs.len() as int, b)
    &&& !f64_le_zero(c.matcher.trigger_move_points_bits)
    &&& c.matcher.matching_window_ms > 0
    &&& !f64_le_zero(c.matcher.ema_alpha_bits)
    &&& !f64_gt_one(c.matcher.ema_alpha_bits)
}

proof fn lemma_first_broker_error_none(bs: Seq<BrokerConfig>, i: int)
    requires
        0 <= i <= bs.len(),
    ensures
        first_broker_error(bs, i) is None <==> forall|k: int|
            i <= k < bs.len() ==> #[trigger] broker_error(bs, k) is None,
    decreases bs.len() - i,
{
    if i < bs.len() {
        lemma_first_broker_error_none(bs, i + 1);
        if first_broker_error(bs, i + 1) is None && broker_error(bs, i) is None {
            assert forall|k: int| i <= k < bs.len() implies #[trigger] broker_error(bs, k) is None by {
                if k > i {
                }
            }
        }
    }
}

/// A configuration passes `validate` exactly when it is acceptable; in
/// particular two brokers with one id, or with one port, are refused.
pub proof fn lemma_config_error_none_iff_valid(c: AppConfig)
    ensures
        config_error(c) is None <==> config_valid(c),
{
    let bs = c.brokers@;
    lemma_first_broker_error_none(bs, 0);
    if forall|k: int| 0 <= k < bs.len() ==> #[trigger] broker_error(bs, k) is None {
        assert forall|i: int| 0 <= i < bs.len() implies {
            &&& #[trigger] bs[i].id != 0
            &&& 1 <= bs[i].digits <= 8
            &&& !f64_le_zero(bs[i].point_size_bits)
            &&& !f64_le_zero(bs[i].pip_size_bits)
        } by {
            assert(broker_error(bs, i) is None);
        }
        assert forall|i: int, j: int| 0 <= i < j < bs.len() implies #[trigger] bs[i].id
            != #[trigger] bs[j].id && bs[i].port != bs[j].port by {
            assert(broker_error(bs, j) is None);
            if bs[i].id == bs[j].id {
                assert(id_before(bs, j, bs[j].id));
            }
            if bs[i].port == bs[j].port {
                assert(port_before(bs, j, bs[j].port));
            }
        }
    }
    if brokers_valid(bs) {
        assert forall|k: int| 0 <= k < bs.len() implies #[trigger] broker_error(bs, k) is None by {
            assert(bs[k].id != 0);
            if id_before(bs, k, bs[k].id) {
                let j = choose|j: int| 0 <= j < k && #[trigger] bs[j].id == bs[k].id;
                assert(bs[j].id != bs[k].id);
            }
            if port_before(bs, k, bs[k].port) {
                let j = choose|j: int| 0 <= j < k && #[trigger] bs[j].port == bs[k].port;
                assert(bs[j].id != bs[k].id);
            }
        }
    }
}

/// Whether a broker before index `i` has the id `id`.
fn has_id_before(bs: &Vec<BrokerConfig>, i: usize, id: BrokerId) -> (r: bool)
    requires
        i <= bs@.len(),
    ensures
        r == id_before(bs@, i as int, id),
{
    let mut j: usize = 0;
    while j < i
        invariant
            i <= bs@.len(),
            j <= i,
            forall|k: int| 0 <= k < j ==> bs@[k].id != id,
        decreases i - j,
    {
        if bs[j].id == id {
            assert(bs@[j as int].id == id);
            return true;
        }
        j = j + 1;
    }
    false
}

/// Whether a broker before index `i` listens on `port`.
fn has_port_before(bs: &Vec<BrokerConfig>, i: usize, port: u16) -> (r: bool)
    requires
        i <= bs@.len(),
    ensures
        r == port_before(bs@, i as int, port),
{
    let mut j: usize = 0;
    while j < i
        invariant
            i <= bs@.len(),
            j <= i,
            forall|k: int| 0 <= k < j ==> bs@[k].port != port,
        decreases i - j,
    {
        if bs[j].port == port {
            assert(bs@[j as int].port == port);
            return true;
        }
        j = j + 1;
    }
    false
}

impl AppConfig {
    /// Checks the configuration: at least two brokers with distinct
    /// non-zero ids and ports and sane price grids, an active pair of two
    /// configured brokers, and positive matcher settings.
    pub fn validate(&self) -> (r: Result<(), String>)
        ensures
            match config_error(*self) {
                None => r is Ok,
                Some(m) => r matches Err(e) && e@ == m,
            },
    {
        let bs = &self.brokers;
        let n = bs.len();
        if n < 2 {
            return Err(string_of("At least 2 brokers must be configured"));
        }
        let mut i: usize = 0;
        while i < n
            invariant
                n == bs@.len(),
                n >= 2,
                bs == &self.brokers,
                i <= n,
                first_broker_error(bs@, 0) == first_broker_error(bs@, i as int),
            decreases n - i,
        {
            let b = &bs[i];
            if b.id == 0 {
                return Err(string_of("Broker id 0 is reserved and invalid"));
            }
            if has_id_before(bs, i, b.id) {
                let mut m = string_of("Duplicate broker id: ");
                push_dec(&mut m, b.id as u64);
                return Err(m);
            }
            if has_port_before(bs, i, b.port) {
                let mut m = string_of("Duplicate broker port: ");
                push_dec(&mut m, b.port as u64);
                return Err(m);
            }
            if b.digits == 0 || b.digits > 8 {
                let mut m = string_of("Broker ");
                push_dec(&mut m, b.id as u64);
                push_str(&mut m, " digits invalid: ");
                push_dec(&mut m, b.digits as u64);
                return Err(m);
            }
            if le_zero_bits(b.point_size_bits) {
                let mut m = string_of("Broker ");
                push_dec(&mut m, b.id as u64);
                push_str(&mut m, " point_size must be positive");
                return Err(m);
            }
            if le_zero_bits(b.pip_size_bits) {
                let mut m = string_of("Broker ");
                push_dec(&mut m, b.id as u64);
                push_str(&mut m, " pip_size must be positive");
                return Err(m);
            }
            i = i + 1;
        }
        let (a, b) = self.active_pair;
        if a == b {
            return Err(string_of("Active pair cannot have the same broker for both sides"));
        }
        if !has_id_before(bs, n, a) {
            let mut m = string_of("Active pair broker A (");
            push_dec(&mut m, a as u64);
            push_str(&mut m, ") not in brokers list");
            return Err(m);
        }
        if !has_id_before(bs, n, b) {
            let mut m = string_of("Active pair broker B (");
            push_dec(&mut m, b as u64);
            push_str(&mut m, ") not in brokers list");
            return Err(m);
        }
        if le_zero_bits(self.matcher.trigger_move_points_bits) {
            return Err(string_of("trigger_move_points must be positive"));
        }
        if self.matcher.matching_window_ms == 0 {
            return Err(string_of("matching_window_ms must be positive"));
        }
        if le_zero_bits(self.matcher.ema_alpha_bits) || gt_one_bits(self.matcher.ema_alpha_bits) {
            return Err(string_of("ema_alpha must be in (0.0, 1.0]"));
        }
        Ok(())
    }
}

} // verus!
