use picloud_http::metrics::{cpu_deltas, parse_meminfo_kb, parse_proc_stat_cpu, proc_stat_counters_fit, CpuTimes};

fn meminfo_mb(content: &str) -> Option<(f64, f64)> {
    let (total_kb, available_kb) = parse_meminfo_kb(content)?;
    let total = total_kb as f64 / 1024.0;
    let available = available_kb as f64 / 1024.0;
    let used = total - available;
    Some(((used * 10.0).round() / 10.0, (total * 10.0).round() / 10.0))
}

#[test]
fn parse_proc_stat_cpu_basic() {
    let content = "cpu  10132 391 3026 6754430 3288 0 260 0 0 0\ncpu0 1234 10 300 1000000 100 0 30 0 0 0\n";
    let times = parse_proc_stat_cpu(content).unwrap();
    assert_eq!(times.idle, 6754430 + 3288);
    let expected_total: u64 = 10132 + 391 + 3026 + 6754430 + 3288 + 0 + 260 + 0 + 0 + 0;
    assert_eq!(times.total, expected_total);
}

#[test]
fn parse_proc_stat_cpu_missing_returns_none() {
    let content = "bogus data";
    assert!(parse_proc_stat_cpu(content).is_none());
}

#[test]
fn parse_proc_stat_cpu_needs_four_counters() {
    assert!(parse_proc_stat_cpu("cpu  1 2 3\n").is_none());
    let t = parse_proc_stat_cpu("cpu  1 2 3 4\n").unwrap();
    assert_eq!(t, CpuTimes { idle: 4, total: 10 });
}

#[test]
fn parse_proc_stat_cpu_skips_non_numeric_fields() {
    let t = parse_proc_stat_cpu("intr 5\ncpu  1 x 2 3 4 5\n").unwrap();
    assert_eq!(t.idle, 4 + 5);
    assert_eq!(t.total, 15);
}

#[test]
fn counters_fit_detects_overflow() {
    assert!(proc_stat_counters_fit("cpu  1 2 3 4\n"));
    assert!(!proc_stat_counters_fit("cpu  18446744073709551615 1 0 0\n"));
}

#[test]
fn parse_meminfo_basic() {
    let content = "\
MemTotal:       16384000 kB
MemFree:         2000000 kB
MemAvailable:    8192000 kB
Buffers:          500000 kB
";
    let (used, total) = meminfo_mb(content).unwrap();
    assert!((total - 16000.0).abs() < 0.2);
    assert!((used - 8000.0).abs() < 0.2);
}

#[test]
fn parse_meminfo_missing_field() {
    let content = "MemTotal:       16384000 kB\n";
    assert!(meminfo_mb(content).is_none());
}

#[test]
fn parse_meminfo_kb_values() {
    let content = "MemTotal:       16384000 kB\nMemAvailable:    8192000 kB\n";
    assert_eq!(parse_meminfo_kb(content), Some((16384000, 8192000)));
    assert_eq!(parse_meminfo_kb("MemTotal: 12 MB\nMemAvailable: 3 kB\n"), None);
}

#[test]
fn cpu_deltas_between_readings() {
    let a = CpuTimes { idle: 10, total: 100 };
    let b = CpuTimes { idle: 15, total: 130 };
    assert_eq!(cpu_deltas(a, b), (5, 30));
}
