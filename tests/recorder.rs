use journal_telemetry::{category_topic, fires, MetricCategory, Recorder};

#[test]
fn interval_five_fires_on_multiples_of_five() {
    let fired: Vec<u64> = (0..16).filter(|c| fires(*c, 5)).collect();
    assert_eq!(fired, vec![0, 5, 10, 15]);
}

#[test]
fn interval_one_fires_every_tick() {
    assert!((0..50).all(|c| fires(c, 1)));
    assert!(fires(u64::MAX, 1));
}

#[test]
fn tick_skipped_without_bus() {
    let mut r = Recorder::new();
    let cats = vec![MetricCategory { name: "cpu".to_string(), interval: 1 }];
    assert!(r.tick(false, &cats).is_none());
    assert_eq!(r.counter(), 0);
}

#[test]
fn ticks_plan_due_categories() {
    let mut r = Recorder::new();
    let cats = vec![
        MetricCategory { name: "cpu".to_string(), interval: 1 },
        MetricCategory { name: "disk".to_string(), interval: 5 },
        MetricCategory { name: "memory".to_string(), interval: 2 },
    ];
    assert_eq!(r.tick(true, &cats), Some(vec![0, 1, 2]));
    assert_eq!(r.tick(true, &cats), Some(vec![0]));
    assert_eq!(r.tick(true, &cats), Some(vec![0, 2]));
    assert!(r.tick(false, &cats).is_none());
    assert_eq!(r.tick(true, &cats), Some(vec![0]));
    assert_eq!(r.tick(true, &cats), Some(vec![0, 2]));
    assert_eq!(r.tick(true, &cats), Some(vec![0, 1]));
    assert_eq!(r.counter(), 6);
}

#[test]
fn topic_replaces_hyphens() {
    assert_eq!(category_topic("serial-ports"), "system_information/serial_ports");
    assert_eq!(category_topic("unix-time-seconds"), "system_information/unix_time_seconds");
    assert_eq!(category_topic("kernel"), "system_information/kernel");
    assert_eq!(category_topic(""), "system_information/");
}
