use bench_harness::probe::{delta, mebibytes, process_cpu_nanos, report, utilization, FileTime, ResourceSample, Utilization};

fn sample(wall: u128, cpu: Option<u128>, ws: u64, private: u64, peak: u64) -> ResourceSample {
    ResourceSample { wall_nanos: wall, cpu_nanos: cpu, working_set: ws, private_usage: private, peak_working_set: peak }
}

#[test]
fn filetime_joins_halves() {
    let t = FileTime { high: 1, low: 2 };
    assert_eq!(t.ticks(), 4294967298);
    assert_eq!(t.nanos(), 429496729800);
    let max = FileTime { high: u32::MAX, low: u32::MAX };
    assert_eq!(max.ticks(), u64::MAX);
    assert_eq!(max.nanos(), u64::MAX as u128 * 100);
}

#[test]
fn cpu_time_is_kernel_plus_user() {
    let k = FileTime { high: 0, low: 30 };
    let u = FileTime { high: 0, low: 12 };
    assert_eq!(process_cpu_nanos(Some((k, u))), Some(4200));
    assert_eq!(process_cpu_nanos(None), None);
}

#[test]
fn delta_exact_values() {
    let s = sample(1_000, Some(500), 4096, 8192, 4096);
    let e = sample(3_500, Some(2_500), 1024, 9000, 10000);
    let d = delta(&s, &e);
    assert_eq!(d.wall_nanos, 2_500);
    assert_eq!(d.cpu_nanos, 2_000);
    assert_eq!(d.working_set, -3072);
    assert_eq!(d.private_usage, 808);
    assert_eq!(d.peak_working_set, 10000);
}

#[test]
fn delta_wall_never_negative() {
    let s = sample(5_000, Some(10), 0, 0, 0);
    let e = sample(4_000, Some(20), 0, 0, 0);
    assert_eq!(delta(&s, &e).wall_nanos, 0);
}

#[test]
fn delta_cpu_zero_when_reading_missing() {
    let s = sample(0, None, 0, 0, 0);
    let e = sample(10, Some(700), 0, 0, 0);
    assert_eq!(delta(&s, &e).cpu_nanos, 0);
    assert_eq!(delta(&e, &s).cpu_nanos, 0);
}

#[test]
fn delta_of_identical_samples_is_zero() {
    let s = sample(123_456, Some(789), 4096, 2048, 8192);
    let d = delta(&s, &s);
    assert_eq!(d.wall_nanos, 0);
    assert_eq!(d.cpu_nanos, 0);
    assert_eq!(d.working_set, 0);
    assert_eq!(d.private_usage, 0);
    assert_eq!(d.peak_working_set, 8192);
}

#[test]
fn utilization_exact_values() {
    assert_eq!(
        utilization(2_000_000_000, 1_000_000_000, 4),
        Some(Utilization { one_core: 20000, all_cores: 5000 })
    );
    assert_eq!(utilization(1, 3, 1), Some(Utilization { one_core: 3333, all_cores: 3333 }));
}

#[test]
fn utilization_undefined_cases() {
    assert_eq!(utilization(5, 0, 4), None);
    assert_eq!(utilization(5, 10, 0), None);
    assert_eq!(utilization(u128::MAX, 10, 1), None);
}

#[test]
fn report_combines_delta_and_utilization() {
    let s = sample(0, Some(0), 100, 100, 100);
    let e = sample(1_000, Some(1_500), 200, 50, 300);
    let r = report(&s, &e, 2);
    assert_eq!(r.delta, delta(&s, &e));
    assert_eq!(r.utilization, Some(Utilization { one_core: 15000, all_cores: 7500 }));
}

#[test]
fn mebibytes_round_down() {
    assert_eq!(mebibytes(3 * 1_048_576 + 5), 3);
    assert_eq!(mebibytes(1_048_575), 0);
}
