use domino::profiler::{Profiler, Ratios, TimerGuard};
use std::cell::Cell;

fn ratios() -> Ratios {
    Ratios {
        hit_rate: " 25.0".to_string(),
        hit_rate_plain: "25.0".to_string(),
        low: true,
        excellent: false,
        resolution: " 75.0".to_string(),
        local: " 25.0".to_string(),
        reexport: "  0.0".to_string(),
        symbol: "  0.0".to_string(),
    }
}

#[test]
fn a_disabled_profiler_counts_nothing() {
    let mut profiler = Profiler::new(false);
    assert!(!profiler.is_enabled());
    profiler.record_resolution(true, 5);
    profiler.record_reference_lookup();
    profiler.record_local_reference(5);
    profiler.record_reexport_check(5);
    profiler.record_symbol_extraction(5);
    assert_eq!(profiler.stats(), Profiler::new(false).stats());
    assert_eq!(profiler.report(&ratios()), None);
}

#[test]
fn an_enabled_profiler_counts_calls_and_times() {
    let mut profiler = Profiler::new(true);
    profiler.record_resolution(true, 10);
    profiler.record_resolution(false, 5);
    profiler.record_reference_lookup();
    profiler.record_local_reference(7);
    profiler.record_reexport_check(8);
    profiler.record_symbol_extraction(9);
    let stats = profiler.stats();
    assert_eq!(stats.resolution_calls, 2);
    assert_eq!(stats.resolution_cache_hits, 1);
    assert_eq!(stats.resolution_time_ns, 15);
    assert_eq!(stats.reference_lookups, 1);
    assert_eq!(stats.local_reference_calls, 1);
    assert_eq!(stats.local_reference_time_ns, 7);
    assert_eq!(stats.reexport_checks, 1);
    assert_eq!(stats.reexport_time_ns, 8);
    assert_eq!(stats.symbol_extractions, 1);
    assert_eq!(stats.symbol_extraction_time_ns, 9);
}

#[test]
fn the_report_shows_counters_and_judgements() {
    let mut profiler = Profiler::new(true);
    for i in 0..1200 {
        profiler.record_resolution(i % 4 == 0, 5_000_000);
    }
    profiler.record_local_reference(2_000_000_000);
    let lines = profiler.report(&ratios()).unwrap();
    assert_eq!(lines[4], "║   Total calls:             1,200                         ║");
    assert_eq!(lines[5], "║   Cache hits:                300 ( 25.0%)                ║");
    assert_eq!(lines[6], "║   Time spent:              6,000 ms                      ║");
    assert_eq!(lines[7], "║   Avg per call:            5,000 μs                      ║");
    assert!(lines.contains(&"║   Avg per check:               0 μs                      ║".to_string()));
    assert!(lines.contains(&"Resolution:       6000 ms ( 75.0%)".to_string()));
    assert!(lines.contains(&"Local refs:       2000 ms ( 25.0%)".to_string()));
    assert!(lines.contains(
        &"   ⚠️  Low cache hit rate (25.0%) - consider pre-resolving imports".to_string()
    ));
    assert!(lines.contains(
        &"   ⚠️  Resolution is the bottleneck - optimize import resolution".to_string()
    ));
    assert_eq!(lines[lines.len() - 1], "");
}

#[test]
fn a_report_without_time_has_no_breakdown() {
    let mut profiler = Profiler::new(true);
    profiler.record_resolution(false, 999_999);
    let lines = profiler.report(&ratios()).unwrap();
    assert!(!lines.iter().any(|l| l.contains("TIME BREAKDOWN")));
    assert!(!lines.iter().any(|l| l.contains("bottleneck")));
}

#[test]
fn a_timer_hands_its_time_to_the_callback() {
    let calls = Cell::new(0);
    let timer = TimerGuard::new(|_ns: u64| calls.set(calls.get() + 1));
    assert_eq!(calls.get(), 0);
    timer.finish();
    assert_eq!(calls.get(), 1);
}
