use resource_monitor::metric::Metric;
use resource_monitor::store::SampleStore;

#[test]
fn new_store_is_empty() {
    let store = SampleStore::new();
    assert_eq!(store.sample_count(Metric::Cpu), 0);
    assert_eq!(store.sample_count(Metric::Gpu), 0);
    assert_eq!(store.snapshot(Metric::Cpu), Vec::<u32>::new());
    assert_eq!(store.snapshot(Metric::Gpu), Vec::<u32>::new());
}

#[test]
fn bounded_after_each_push() {
    let mut store = SampleStore::new();
    let values: Vec<u32> = vec![1, 2, 3, 4, 5, 6];
    for (total, value) in values.iter().enumerate() {
        store.push(Metric::Cpu, *value, 3);
        let snapshot = store.snapshot(Metric::Cpu);
        assert!(snapshot.len() <= 3);
        let retained = (total + 1).min(3);
        assert_eq!(snapshot.len(), retained);
        let expected: Vec<u32> = values[total + 1 - retained..total + 1].to_vec();
        assert_eq!(snapshot, expected);
    }
}

#[test]
fn eviction_keeps_last_capacity() {
    let mut store = SampleStore::new();
    for value in [31, 32, 33, 34, 35] {
        store.push(Metric::Gpu, value, 2);
    }
    assert_eq!(store.snapshot(Metric::Gpu), vec![34, 35]);
}

#[test]
fn rolling_window_concrete() {
    let mut store = SampleStore::new();
    for value in [10, 11, 12, 13, 14, 15, 16] {
        store.push(Metric::Cpu, value, 5);
    }
    assert_eq!(store.snapshot(Metric::Cpu), vec![12, 13, 14, 15, 16]);
}

#[test]
fn push_leaves_other_metric_alone() {
    let mut store = SampleStore::new();
    store.push(Metric::Gpu, 60, 4);
    store.push(Metric::Cpu, 45, 4);
    store.push(Metric::Cpu, 46, 4);
    assert_eq!(store.snapshot(Metric::Gpu), vec![60]);
    assert_eq!(store.snapshot(Metric::Cpu), vec![45, 46]);
}

#[test]
fn snapshot_is_isolated_from_later_pushes() {
    let mut store = SampleStore::new();
    store.push(Metric::Cpu, 40, 5);
    store.push(Metric::Cpu, 41, 5);
    let before = store.snapshot(Metric::Cpu);
    store.push(Metric::Cpu, 42, 5);
    assert_eq!(before, vec![40, 41]);
    assert_eq!(store.snapshot(Metric::Cpu), vec![40, 41, 42]);
}

#[test]
fn snapshot_never_exceeds_capacity() {
    let mut store = SampleStore::new();
    for value in 0..100 {
        store.push(Metric::Cpu, value, 7);
        assert!(store.snapshot(Metric::Cpu).len() <= 7);
    }
}

#[test]
fn is_ready_needs_two_points() {
    let mut store = SampleStore::new();
    assert!(!store.is_ready(Metric::Cpu));
    store.push(Metric::Cpu, 50, 10);
    assert!(!store.is_ready(Metric::Cpu));
    store.push(Metric::Cpu, 51, 10);
    assert!(store.is_ready(Metric::Cpu));
    assert!(!store.is_ready(Metric::Gpu));
}

#[test]
fn capacity_shrink_trims_to_new_capacity() {
    let mut store = SampleStore::new();
    for value in [1, 2, 3, 4, 5] {
        store.push(Metric::Cpu, value, 5);
    }
    store.push(Metric::Cpu, 6, 3);
    assert_eq!(store.snapshot(Metric::Cpu), vec![4, 5, 6]);
}

#[test]
fn capacity_zero_keeps_nothing() {
    let mut store = SampleStore::new();
    store.push(Metric::Cpu, 9, 0);
    assert_eq!(store.sample_count(Metric::Cpu), 0);
}
