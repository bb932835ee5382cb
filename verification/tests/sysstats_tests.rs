use pi_kiosk::sysstats::{counter_value, cpu_delta, cpu_sample, disk_usage, memory_usage, sum_counters};

#[test]
fn cpu_counters() {
    let stat = "cpu  100 5 50 1000 20 0 3 0 0 0\ncpu0 50 2 25 500 10 0 1 0 0 0\n";
    assert_eq!(cpu_sample(stat), Some((1000, 1178)));
    assert_eq!(cpu_sample("cpu 1 2 3\n"), None);
    assert_eq!(cpu_sample(""), None);
    assert_eq!(cpu_sample("cpu 1 x 2 3 4\n"), Some((4, 10)));
}

#[test]
fn cpu_change() {
    assert_eq!(cpu_delta(1000, 800, 1200, 900), (200, 100));
    assert_eq!(cpu_delta(1000, 800, 900, 700), (0, 0));
}

#[test]
fn memory() {
    let m = "MemTotal:        3884084 kB\nMemFree:          200000 kB\nMemAvailable:    2000000 kB\n";
    assert_eq!(memory_usage(m), ((3884084 - 2000000) / 1024, 3884084 / 1024));
    assert_eq!(memory_usage("MemAvailable: 10 kB\n"), (0, 0));
    assert_eq!(memory_usage(""), (0, 0));
}

#[test]
fn disk() {
    let df = "     Used      Size\n 5000000000 30000000000\n";
    assert_eq!(disk_usage(df), Some((5000000000, 30000000000)));
    assert_eq!(disk_usage("Used Size\n"), None);
    assert_eq!(disk_usage("Used Size\nx 10\n"), Some((0, 10)));
}

#[test]
fn counters() {
    assert_eq!(counter_value("12345\n"), 12345);
    assert_eq!(counter_value("garbage"), 0);
    assert_eq!(sum_counters(&[1, 2, 3]), 6);
    assert_eq!(sum_counters(&[]), 0);
    assert_eq!(sum_counters(&[u64::MAX, 2]), 1);
}
