use pata::performance::{Duration, PerformanceMetrics, ScopedTimer};

#[test]
fn performance_metrics_tracks_phases() {
    let mut metrics = PerformanceMetrics::new(5000);
    metrics.record_phase("parse", Duration::from_millis(100));
    metrics.record_phase("compile", Duration::from_millis(200));
    metrics.set_total(Duration::from_millis(300));

    assert_eq!(metrics.phases.len(), 2);
    assert!(!metrics.exceeds_slo());
}

#[test]
fn performance_metrics_detects_slo_violation() {
    let mut metrics = PerformanceMetrics::new(100);
    metrics.set_total(Duration::from_millis(150));

    assert!(metrics.exceeds_slo());
}

#[test]
fn recording_a_phase_again_replaces_its_time_and_phases_stay_in_name_order() {
    let mut metrics = PerformanceMetrics::new(1000);
    metrics.record_phase("parse", Duration::from_millis(100));
    metrics.record_phase("compile", Duration::from_millis(200));
    metrics.record_phase("parse", Duration::from_millis(5));
    let names: Vec<&str> = metrics.phases.iter().map(|(n, _)| n.as_str()).collect();
    assert_eq!(names, vec!["compile", "parse"]);
    assert_eq!(metrics.phases[1].1.as_millis(), 5);
}

#[test]
fn report_lists_phases_and_the_slo_warning() {
    let mut metrics = PerformanceMetrics::new(100);
    metrics.record_phase("parse", Duration::from_nanos(1_500_000));
    metrics.record_phase("compile", Duration::from_millis(200));
    metrics.set_total(Duration::from_millis(250));
    let report = metrics.report("0.25");
    assert_eq!(
        report,
        "Uendeshaji: 0.25s\n\nAwamu:\n  compile: 200ms\n  parse: 1ms\n\nOnyo: Kuzidi SLO (100 ms)\n"
    );
    let quiet = PerformanceMetrics::new(100).report("0.00");
    assert_eq!(quiet, "Uendeshaji: 0.00s");
}

#[test]
fn exceeds_slo_compares_whole_milliseconds() {
    let mut metrics = PerformanceMetrics::new(100);
    metrics.set_total(Duration::from_nanos(100_999_999));
    assert!(!metrics.exceeds_slo());
    metrics.set_total(Duration::from_secs(1));
    assert!(metrics.exceeds_slo());
}

#[test]
fn scoped_timer_keeps_its_name() {
    let timer = ScopedTimer::new("test_phase");
    let _ = timer.elapsed();
    assert_eq!(timer.name(), "test_phase");
}
