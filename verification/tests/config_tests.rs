use resource_monitor::config::Config;
use resource_monitor::metric::Metric;

#[test]
fn default_matches_startup_values() {
    let config = Config::default();
    assert_eq!(config.poll_interval_ms, 500);
    assert_eq!(config.render_interval_ms, 12);
    assert_eq!(config.capacity, 600);
    assert!(config.cpu_enabled);
    assert!(config.gpu_enabled);
}

#[test]
fn new_sets_every_field() {
    let config = Config::new(250, 16, 1200, false, true);
    assert_eq!(config.poll_interval_ms, 250);
    assert_eq!(config.render_interval_ms, 16);
    assert_eq!(config.capacity, 1200);
    assert!(!config.cpu_enabled);
    assert!(config.gpu_enabled);
}

#[test]
fn is_enabled_reads_the_matching_flag() {
    let config = Config::new(500, 12, 600, true, false);
    assert!(config.is_enabled(Metric::Cpu));
    assert!(!config.is_enabled(Metric::Gpu));
}

#[test]
fn set_enabled_changes_only_one_metric() {
    let mut config = Config::default();
    config.set_enabled(Metric::Gpu, false);
    assert!(config.cpu_enabled);
    assert!(!config.gpu_enabled);
    assert_eq!(config.poll_interval_ms, 500);
    assert_eq!(config.render_interval_ms, 12);
    assert_eq!(config.capacity, 600);
    config.set_enabled(Metric::Gpu, true);
    assert!(config.gpu_enabled);
}

#[test]
fn fields_are_independently_adjustable() {
    let mut config = Config::default();
    config.poll_interval_ms = 3000;
    config.capacity = 10;
    assert_eq!(config.poll_interval_ms, 3000);
    assert_eq!(config.render_interval_ms, 12);
    assert_eq!(config.capacity, 10);
}
