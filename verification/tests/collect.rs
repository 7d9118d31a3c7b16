use axum_sentinel_monitor::collect::Collector;
use axum_sentinel_monitor::heap::HeapReading;
use axum_sentinel_monitor::ratio::clamp_percent;
use axum_sentinel_monitor::readings::{
    collect_runtime, count_saturating, network_rates, network_totals, open_descriptors,
    path_on_mount, runtime_counts, DescriptorReading, LoadReading, Mount, ProcessReading, Reading,
    RuntimeReading, SystemReading,
};
use axum_sentinel_monitor::stats::HttpMetrics;
use axum_sentinel_monitor::{ByteRate, Figure, Ratio, Snapshot, Timestamp};

const SECOND: u128 = 1_000_000_000;

fn figure(value: f64) -> Figure {
    Figure { bits: value.to_bits() }
}

fn components(path: &str) -> Vec<Vec<u8>> {
    let mut parts: Vec<Vec<u8>> = vec![b"/".to_vec()];
    parts.extend(path.split('/').filter(|part| !part.is_empty()).map(|part| part.as_bytes().to_vec()));
    parts
}

fn mount(path: &str, total: u64, available: u64, file_system: &str) -> Mount {
    Mount {
        components: components(path),
        length: path.len(),
        total,
        available,
        file_system: file_system.into(),
    }
}

fn reading(now: u128) -> Reading {
    Reading {
        collected_at: Timestamp { secs: 1_700_000_000, nanos: 5 },
        now,
        uptime_seconds: 12,
        process: Some(ProcessReading { cpu_percent: figure(12.5), rss_bytes: 4_096 }),
        threads: Some(9),
        descriptors: DescriptorReading::Entries(33),
        system: SystemReading {
            cpu_percent: figure(50.0),
            memory_total: 1_000,
            memory_used: 250,
            memory_available: 700,
            load: Some(LoadReading { one: figure(1.0), five: figure(2.0), fifteen: figure(3.0) }),
            interfaces: 2,
            received: 1_000,
            sent: 2_000,
        },
        disk_root: Some(components("/srv/app")),
        mounts: vec![mount("/", 500, 100, "ext4"), mount("/srv", 800, 200, "xfs")],
        mounts_at: now,
        runtime: RuntimeReading::Tokio { tasks: 7, workers: 4 },
        heap: HeapReading::Unknown,
    }
}

fn collect(collector: &mut Collector, reading: Reading) -> Snapshot {
    collector.collect(reading, &HttpMetrics::new(), 0, 0)
}

#[test]
fn first_snapshot_has_no_rates() {
    let mut collector = Collector::new();
    let snapshot = collect(&mut collector, reading(0));
    assert_eq!(snapshot.collected_at, Timestamp { secs: 1_700_000_000, nanos: 5 });
    assert!(!snapshot.collection.partial);
    assert!(snapshot.collection.errors.is_empty());
    assert_eq!(snapshot.process.cpu_percent, None);
    assert_eq!(snapshot.process.rss_bytes, Some(4_096));
    assert_eq!(snapshot.process.threads, Some(9));
    assert_eq!(snapshot.process.open_descriptors, Some(33));
    assert_eq!(snapshot.process.uptime_seconds, 12);
    assert_eq!(snapshot.system.cpu_percent, None);
    assert_eq!(snapshot.system.network_receive_bps, None);
    assert_eq!(snapshot.system.network_send_bps, None);
    assert_eq!(
        snapshot.system.memory_used_percent,
        Some(Ratio { numerator: 250, denominator: 1_000 })
    );
    assert_eq!(snapshot.system.memory_available_bytes, Some(700));
    assert_eq!(snapshot.system.load5, Some(figure(2.0)));
    assert_eq!(snapshot.runtime.goroutines, 7);
    assert_eq!(snapshot.runtime.workers, 4);
}

#[test]
fn second_snapshot_has_rates() {
    let mut collector = Collector::new();
    collect(&mut collector, reading(0));
    let mut next = reading(2 * SECOND);
    next.system.received = 5_000;
    let snapshot = collect(&mut collector, next);
    assert_eq!(snapshot.process.cpu_percent, Some(figure(12.5)));
    assert_eq!(snapshot.system.cpu_percent, Some(figure(50.0)));
    assert_eq!(
        snapshot.system.network_receive_bps,
        Some(ByteRate { bytes: 4_000, nanos: 2 * SECOND })
    );
    assert_eq!(
        snapshot.system.network_send_bps,
        Some(ByteRate { bytes: 0, nanos: 2 * SECOND })
    );
}

#[test]
fn missing_metrics_are_named() {
    let mut collector = Collector::new();
    let mut poor = reading(0);
    poor.process = None;
    poor.system.memory_total = 0;
    poor.system.interfaces = 0;
    poor.system.load = None;
    poor.disk_root = None;
    let snapshot = collect(&mut collector, poor);
    assert!(snapshot.collection.partial);
    assert_eq!(
        snapshot.collection.errors,
        vec![
            "process.cpu",
            "process.memory",
            "process.threads",
            "process.descriptors",
            "system.memory",
            "system.disk",
            "system.network",
        ]
    );
    assert_eq!(snapshot.process.rss_bytes, None);
    assert_eq!(snapshot.process.threads, None);
    assert_eq!(snapshot.process.open_descriptors, None);
    assert_eq!(snapshot.process.uptime_seconds, 12);
    assert_eq!(snapshot.system.memory_used_bytes, None);
    assert_eq!(snapshot.system.disk_total_bytes, None);
    assert_eq!(snapshot.system.load1, None);
}

#[test]
fn found_processes_may_lack_threads_and_descriptors() {
    let mut collector = Collector::new();
    let mut poor = reading(0);
    poor.threads = None;
    poor.descriptors = DescriptorReading::Unknown;
    let snapshot = collect(&mut collector, poor);
    assert_eq!(
        snapshot.collection.errors,
        vec!["process.threads", "process.descriptors"]
    );
    assert_eq!(snapshot.process.rss_bytes, Some(4_096));
}

#[test]
fn longest_mount_of_the_application_is_used() {
    let mut collector = Collector::new();
    let snapshot = collect(&mut collector, reading(0));
    assert_eq!(snapshot.system.disk_total_bytes, Some(800));
    assert_eq!(snapshot.system.disk_free_bytes, Some(200));
    assert_eq!(snapshot.system.disk_used_bytes, Some(600));
    assert_eq!(
        snapshot.system.disk_used_percent,
        Some(Ratio { numerator: 600, denominator: 800 })
    );
    assert_eq!(snapshot.system.disk_fstype, Some("xfs".to_string()));
}

#[test]
fn disks_without_a_size_or_a_name() {
    let mut collector = Collector::new();
    let mut empty = reading(0);
    empty.mounts = vec![mount("/", 500, 100, "ext4"), mount("/srv", 0, 0, "xfs")];
    let snapshot = collect(&mut collector, empty);
    assert_eq!(snapshot.system.disk_total_bytes, None);
    assert_eq!(snapshot.collection.errors, vec!["system.disk"]);

    let mut collector = Collector::new();
    let mut odd = reading(0);
    odd.mounts = vec![mount("/", 500, 900, "")];
    let snapshot = collect(&mut collector, odd);
    assert_eq!(snapshot.system.disk_used_bytes, Some(0));
    assert_eq!(snapshot.system.disk_fstype, None);
}

#[test]
fn of_equal_mounts_the_last_is_used() {
    let mut collector = Collector::new();
    let mut twice = reading(0);
    twice.mounts = vec![mount("/srv", 10, 1, "a"), mount("/srv", 20, 2, "b"), mount("/", 5, 1, "c")];
    let snapshot = collect(&mut collector, twice);
    assert_eq!(snapshot.system.disk_fstype, Some("b".to_string()));
}

#[test]
fn disk_is_read_every_thirty_seconds() {
    let mut collector = Collector::new();
    assert!(collector.disk_due(0));
    collect(&mut collector, reading(0));
    assert!(!collector.disk_due(30 * SECOND - 1));
    assert!(collector.disk_due(30 * SECOND));

    let mut other = reading(29 * SECOND);
    other.mounts = vec![mount("/", 1, 1, "new")];
    let snapshot = collect(&mut collector, other);
    assert_eq!(snapshot.system.disk_total_bytes, Some(800));

    let mut other = reading(30 * SECOND);
    other.mounts = vec![mount("/", 1, 1, "new")];
    let snapshot = collect(&mut collector, other);
    assert_eq!(snapshot.system.disk_total_bytes, Some(1));
}

#[test]
fn a_missing_mount_is_not_probed_again() {
    let mut collector = Collector::new();
    let mut none = reading(0);
    none.mounts = vec![];
    let snapshot = collect(&mut collector, none);
    assert_eq!(snapshot.system.disk_total_bytes, None);
    assert!(!collector.disk_due(SECOND));
}

#[test]
fn paths_on_mounts() {
    assert!(path_on_mount(&components("/srv/app"), &components("/")));
    assert!(path_on_mount(&components("/srv/app"), &components("/srv")));
    assert!(path_on_mount(&components("/srv/app"), &components("/srv/app")));
    assert!(!path_on_mount(&components("/srv/app"), &components("/srv/ap")));
    assert!(!path_on_mount(&components("/srv"), &components("/srv/app")));
    assert!(path_on_mount(&components("/srv"), &vec![]));
}

#[test]
fn rates_of_counters() {
    assert_eq!(network_rates(10, 10, 20, 30, 0), (None, None));
    assert_eq!(network_rates(10, 10, 9, 30, 5), (None, None));
    assert_eq!(network_rates(10, 10, 20, 9, 5), (None, None));
    assert_eq!(
        network_rates(10, 10, 20, 30, 5),
        (
            Some(ByteRate { bytes: 10, nanos: 5 }),
            Some(ByteRate { bytes: 20, nanos: 5 })
        )
    );
}

#[test]
fn totals_of_counters() {
    assert_eq!(network_totals(&vec![]), Some((0, 0)));
    assert_eq!(network_totals(&vec![(1, 2), (3, 4)]), Some((4, 6)));
    assert_eq!(network_totals(&vec![(u64::MAX, 0), (0, u64::MAX)]), Some((u64::MAX, u64::MAX)));
    assert_eq!(network_totals(&vec![(u64::MAX, 0), (1, 0)]), None);
    assert_eq!(network_totals(&vec![(0, 1), (0, u64::MAX)]), None);
}

#[test]
fn counts_fit_their_type() {
    assert_eq!(count_saturating(0), 0);
    assert_eq!(count_saturating(2_147_483_647), i32::MAX);
    assert_eq!(count_saturating(2_147_483_648), i32::MAX);
    assert_eq!(count_saturating(usize::MAX), i32::MAX);
    assert_eq!(open_descriptors(DescriptorReading::Entries(usize::MAX)), Some(i32::MAX));
    assert_eq!(open_descriptors(DescriptorReading::Handles(7)), Some(7));
    assert_eq!(open_descriptors(DescriptorReading::Handles(u32::MAX)), Some(-1));
    assert_eq!(open_descriptors(DescriptorReading::Unknown), None);
}

#[test]
fn runtime_figures() {
    assert_eq!(
        runtime_counts(RuntimeReading::Tokio { tasks: 3, workers: usize::MAX }),
        (3, i32::MAX)
    );
    assert_eq!(
        runtime_counts(RuntimeReading::Threads { threads: Some(5), parallelism: Some(8) }),
        (5, 8)
    );
    assert_eq!(
        runtime_counts(RuntimeReading::Threads { threads: None, parallelism: None }),
        (0, 1)
    );
    let stats = collect_runtime(
        RuntimeReading::Tokio { tasks: 1, workers: 2 },
        HeapReading::Jemalloc { allocated: 1, active: 2, mapped: 4, retained: 8, resident: 3 },
    );
    assert_eq!(stats.goroutines, 1);
    assert_eq!(stats.workers, 2);
    assert_eq!(stats.heap_alloc_bytes, 1);
    assert_eq!(stats.heap_inuse_bytes, 2);
    assert_eq!(stats.heap_sys_bytes, 12);
    assert_eq!(stats.heap_idle_bytes, 10);
    assert_eq!(stats.heap_released_bytes, 9);
}

#[test]
fn shares_are_clamped_to_percent() {
    for value in [
        0.0f64,
        -0.0,
        12.5,
        100.0,
        100.000001,
        1e300,
        -1e-300,
        -7.0,
        f64::INFINITY,
        f64::NEG_INFINITY,
    ] {
        assert_eq!(clamp_percent(figure(value)), figure(value.clamp(0.0, 100.0)), "{value}");
    }
    assert_eq!(clamp_percent(figure(f64::NAN)), figure(f64::NAN));

    let mut collector = Collector::new();
    collect(&mut collector, reading(0));
    let mut busy = reading(SECOND);
    busy.process = Some(ProcessReading { cpu_percent: figure(250.0), rss_bytes: 1 });
    busy.system.cpu_percent = figure(-3.0);
    let snapshot = collect(&mut collector, busy);
    assert_eq!(snapshot.process.cpu_percent, Some(figure(100.0)));
    assert_eq!(snapshot.system.cpu_percent, Some(figure(0.0)));
}

#[test]
fn processes_are_reported() {
    let mut collector = Collector::new();
    let mut errors: Vec<String> = vec!["earlier".into()];
    let stats = collector.collect_process(None, Some(1), DescriptorReading::Entries(1), 3, &mut errors);
    assert_eq!(stats.uptime_seconds, 3);
    assert_eq!(stats.threads, None);
    assert_eq!(
        errors,
        vec!["earlier", "process.cpu", "process.memory", "process.threads", "process.descriptors"]
    );
    let found = ProcessReading { cpu_percent: figure(1.0), rss_bytes: 2 };
    let mut errors: Vec<String> = vec![];
    let first =
        collector.collect_process(Some(found), None, DescriptorReading::Handles(4), 4, &mut errors);
    assert_eq!(first.cpu_percent, None);
    assert_eq!(first.open_descriptors, Some(4));
    assert_eq!(errors, vec!["process.threads"]);
    let second =
        collector.collect_process(Some(found), Some(5), DescriptorReading::Unknown, 5, &mut errors);
    assert_eq!(second.cpu_percent, Some(figure(1.0)));
    assert_eq!(second.threads, Some(5));
    assert_eq!(errors, vec!["process.threads", "process.descriptors"]);
}
