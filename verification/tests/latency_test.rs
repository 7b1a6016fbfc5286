//! Latency timestamps, rings and percentiles, in nanoseconds.

use tick_compare::contracts::types::MonoNs;
use tick_compare::metrics::latency::{
    LatencyMetrics, LatencyRingBuffer, PipelineTimestamps, LATENCY_RING_CAPACITY,
};

#[test]
fn test_default_state() {
    let metrics = LatencyMetrics::default();
    assert_eq!(metrics.queue_depth(), 0);
    assert_eq!(metrics.dropped_snapshots(), 0);
    let s = metrics.tick_to_engine().compute_percentiles_ns();
    assert_eq!(s.sample_count, 0);
    assert_eq!(s.p50_ns, 0);
    assert_eq!(metrics.engine_to_projection().compute_percentiles_ns().sample_count, 0);
    assert_eq!(metrics.projection_to_snapshot().compute_percentiles_ns().sample_count, 0);
    assert_eq!(metrics.snapshot_to_ui().compute_percentiles_ns().sample_count, 0);
    assert_eq!(metrics.total_pipeline().compute_percentiles_ns().sample_count, 0);
}

#[test]
fn test_record_single_stage_metrics() {
    let mut metrics = LatencyMetrics::new();
    metrics.record_tick_to_engine(MonoNs(10_000), MonoNs(11_500));
    let s = metrics.tick_to_engine().compute_percentiles_ns();
    assert_eq!(s.sample_count, 1);
    assert_eq!((s.p50_ns, s.p95_ns, s.p99_ns, s.max_ns), (1_500, 1_500, 1_500, 1_500));
}

#[test]
fn test_percentiles_calculation() {
    let mut ring = LatencyRingBuffer::new();
    for i in 1..=100u64 {
        ring.record(i * 1_000);
    }
    let stats = ring.compute_percentiles_ns();
    assert_eq!(stats.sample_count, 100);
    assert_eq!(stats.p50_ns, 50_000);
    assert_eq!(stats.p95_ns, 95_000);
    assert_eq!(stats.p99_ns, 99_000);
    assert_eq!(stats.max_ns, 100_000);
}

#[test]
fn test_ring_buffer_wraparound_no_alloc() {
    let mut ring = LatencyRingBuffer::new();
    for i in 1..=3000u64 {
        ring.record(i * 100);
    }
    assert_eq!(ring.total_samples(), 3000);
    assert_eq!(ring.valid_count(), LATENCY_RING_CAPACITY);
    let stats = ring.compute_percentiles_ns();
    assert_eq!(stats.sample_count, 3000);
    assert_eq!(stats.max_ns, 300_000);
    assert_eq!(stats.p50_ns, 197_600);
}

#[test]
fn test_pipeline_timestamps_struct_and_recording() {
    let mut ts = PipelineTimestamps::new(MonoNs(100_000));
    ts.mark_engine(MonoNs(101_000));
    ts.mark_projection(MonoNs(102_500));
    ts.mark_snapshot(MonoNs(104_000));
    ts.mark_render(MonoNs(106_000));

    assert_eq!(ts.tick_to_engine_ns(), Some(1_000));
    assert_eq!(ts.engine_to_projection_ns(), Some(1_500));
    assert_eq!(ts.projection_to_snapshot_ns(), Some(1_500));
    assert_eq!(ts.snapshot_to_ui_ns(), Some(2_000));
    assert_eq!(ts.total_latency_ns(), Some(6_000));

    let mut metrics = LatencyMetrics::new();
    metrics.record_pipeline_timestamps(&ts);
    assert_eq!(metrics.tick_to_engine().compute_percentiles_ns().p50_ns, 1_000);
    assert_eq!(metrics.engine_to_projection().compute_percentiles_ns().p50_ns, 1_500);
    assert_eq!(metrics.projection_to_snapshot().compute_percentiles_ns().p50_ns, 1_500);
    assert_eq!(metrics.snapshot_to_ui().compute_percentiles_ns().p50_ns, 2_000);
    let total = metrics.total_pipeline().compute_percentiles_ns();
    assert_eq!(total.p50_ns, 6_000);
    assert_eq!(total.sample_count, 1);
}

#[test]
fn test_monotonic_safety_and_underflow() {
    let mut metrics = LatencyMetrics::new();
    metrics.record_tick_to_engine(MonoNs(50_000), MonoNs(40_000));
    let s = metrics.tick_to_engine().compute_percentiles_ns();
    assert_eq!(s.sample_count, 1);
    assert_eq!(s.p50_ns, 0);
    assert_eq!(s.max_ns, 0);
}

#[test]
fn test_dropped_snapshots_and_queue_depth() {
    let mut metrics = LatencyMetrics::new();
    assert_eq!(metrics.dropped_snapshots(), 0);
    for _ in 0..5 {
        metrics.increment_dropped_snapshots();
    }
    assert_eq!(metrics.dropped_snapshots(), 5);
    metrics.record_queue_depth(128);
    assert_eq!(metrics.queue_depth(), 128);
}

#[test]
fn test_clear_resets_all_state() {
    let mut metrics = LatencyMetrics::new();
    metrics.record_tick_to_engine(MonoNs(100), MonoNs(200));
    metrics.record_queue_depth(10);
    metrics.increment_dropped_snapshots();
    metrics.clear();
    assert_eq!(metrics.queue_depth(), 0);
    assert_eq!(metrics.dropped_snapshots(), 0);
    assert_eq!(metrics.tick_to_engine().compute_percentiles_ns().sample_count, 0);
    assert!(metrics.tick_to_engine().is_empty());
}

#[test]
fn unreached_stages_are_not_recorded() {
    let ts = PipelineTimestamps::new(MonoNs(0)).with_engine(MonoNs(5)).with_projection(MonoNs(3));
    assert_eq!(ts.tick_to_engine_ns(), None);
    assert_eq!(ts.engine_to_projection_ns(), None);
    let mut metrics = LatencyMetrics::new();
    metrics.record_pipeline_timestamps(&ts);
    assert!(metrics.tick_to_engine().is_empty());
    assert!(metrics.engine_to_projection().is_empty());
    assert_eq!(PipelineTimestamps::default(), PipelineTimestamps::new(MonoNs(0)));
}

#[test]
fn ring_after_clear_reuses_slots() {
    let mut ring = LatencyRingBuffer::new();
    for i in 0..5000u64 {
        ring.record(i);
    }
    ring.clear();
    ring.record(7);
    ring.record(3);
    let s = ring.compute_percentiles_ns();
    assert_eq!((s.sample_count, s.p50_ns, s.max_ns), (2, 3, 7));
}

#[test]
fn percentiles_of_unordered_samples() {
    let mut ring = LatencyRingBuffer::new();
    for v in [5_000u64, 1_000, 4_000, 2_000, 3_000] {
        ring.record(v);
    }
    let stats = ring.compute_percentiles_ns();
    assert_eq!(stats.p50_ns, 3_000);
    assert_eq!(stats.p95_ns, 5_000);
    assert_eq!(stats.max_ns, 5_000);
}
