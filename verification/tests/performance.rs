use solend_liquidator::log::Logger;
use solend_liquidator::performance::{
    current_timestamp_micros, current_timestamp_ms, timestamp_from, PerformanceMeter, Setting,
};

#[test]
fn setting_labels() {
    assert_eq!(Setting::Ms.format(), "ms");
    assert_eq!(Setting::Micros.format(), "micros");
    assert_eq!(Setting::default(), Setting::Ms);
}

#[test]
fn timestamps_are_after_the_epoch() {
    let ms = current_timestamp_ms().unwrap();
    let micros = current_timestamp_micros().unwrap();
    assert!(ms > 1_600_000_000_000);
    assert!(micros > 1_600_000_000_000_000);
    let meter = PerformanceMeter::new(Setting::Micros);
    assert!(meter.timestamp().unwrap() > 1_600_000_000_000_000);
}

#[test]
fn points_are_measured_in_order() {
    let mut meter = PerformanceMeter::new(Setting::Ms);
    assert!(meter.add_point("start"));
    assert!(meter.add_point("middle"));
    assert!(meter.add_point("end"));
    assert!(meter.is_measurable());
    let intervals = meter.intervals();
    assert_eq!(intervals.len(), 2);
    assert_eq!((intervals[0].0, intervals[0].1), ("start", "middle"));
    assert_eq!((intervals[1].0, intervals[1].1), ("middle", "end"));
    meter.clear();
    assert!(!meter.is_measurable());
    assert!(meter.add_point("again"));
    assert!(meter.is_measurable());
    assert_eq!(meter.intervals().len(), 0);
}

#[test]
fn logger_starts_enabled() {
    assert!(Logger::new().enabled);
    assert!(!Logger::default().enabled);
}

#[test]
fn clock_readings_in_each_unit() {
    assert_eq!(timestamp_from(Setting::Ms, 12, 345_678_901), 12_345);
    assert_eq!(timestamp_from(Setting::Micros, 12, 345_678_901), 12_345_678);
    assert_eq!(timestamp_from(Setting::Ms, 0, 999_999_999), 999);
}

#[test]
fn points_at_given_times() {
    let mut meter = PerformanceMeter::new(Setting::Micros);
    meter.add_point_at("a", 100);
    meter.add_point_at("b", 250);
    meter.add_point_at("c", 400);
    assert_eq!(meter.intervals(), vec![("a", "b", 150), ("b", "c", 150)]);
    // a tag taken again supersedes its earlier time, so the time goes back
    meter.add_point_at("a", 500);
    assert!(!meter.is_measurable());
}
