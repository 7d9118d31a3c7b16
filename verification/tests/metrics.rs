use axum_sentinel_monitor::metrics::{
    next_action, tcp_connection_counts, MetricSample, MetricsCollector, MetricsState, OsMetrics,
    ProcessMetrics, SamplerAction, SamplerEvent, Snapshot, SocketEntry,
};
use axum_sentinel_monitor::Figure;

fn figure(value: f64) -> Figure {
    Figure { bits: value.to_bits() }
}

struct Fixed(u64);

impl MetricsCollector for Fixed {
    fn collect(&mut self) -> MetricSample {
        self.0 += 1;
        MetricSample { process_ram: Some(self.0), ..MetricSample::default() }
    }
}

#[test]
fn samples_are_taken_over() {
    let mut state = MetricsState::new();
    state.apply(MetricSample {
        process_cpu: Some(figure(1.5)),
        process_ram: Some(2),
        process_connections: Some(3),
        process_threads: Some(4),
        process_uptime: Some(5),
        system_cpu: Some(figure(6.5)),
        system_ram: Some(7),
        system_total_ram: Some(8),
        system_load_average: Some(figure(9.5)),
        system_connections: Some(10),
    });
    let snapshot = state.snapshot(99);
    assert_eq!(snapshot.pid.cpu, figure(1.5));
    assert_eq!(snapshot.pid.ram, 2);
    assert_eq!(snapshot.pid.conns, 3);
    assert_eq!(snapshot.pid.goroutines, 4);
    assert_eq!(snapshot.pid.uptime, 5);
    assert_eq!(snapshot.os.cpu, figure(6.5));
    assert_eq!(snapshot.os.ram, 7);
    assert_eq!(snapshot.os.total_ram, 8);
    assert_eq!(snapshot.os.load_avg, figure(9.5));
    assert_eq!(snapshot.os.conns, 10);
}

#[test]
fn unavailable_values_are_retained() {
    let mut state = MetricsState::new();
    let mut source = Fixed(40);
    state.apply(source.collect());
    state.apply(source.collect());
    state.apply(MetricSample::default());
    assert_eq!(state.snapshot(0).pid.ram, 42);
    assert_eq!(state.snapshot(0).os.ram, 0);
}

#[test]
fn requests_are_counted_and_uptime_falls_back() {
    let mut state = MetricsState::new();
    assert_eq!(state.snapshot(3).pid.requests, "0");
    assert_eq!(state.snapshot(3).pid.uptime, 3);
    for _ in 0..120 {
        state.increment_requests();
    }
    assert_eq!(state.snapshot(0).pid.requests, "120");
    state.apply(MetricSample { process_uptime: Some(7), ..MetricSample::default() });
    assert_eq!(state.snapshot(3).pid.uptime, 7);
}

#[test]
fn tcp_sockets_are_counted() {
    assert_eq!(tcp_connection_counts(&None, 1), (None, None));
    let sockets = vec![
        SocketEntry { tcp: true, pids: vec![1, 2] },
        SocketEntry { tcp: false, pids: vec![1] },
        SocketEntry { tcp: true, pids: vec![3] },
        SocketEntry { tcp: true, pids: vec![] },
        SocketEntry { tcp: true, pids: vec![1, 1] },
    ];
    assert_eq!(tcp_connection_counts(&Some(sockets), 1), (Some(4), Some(2)));
    assert_eq!(tcp_connection_counts(&Some(vec![]), 1), (Some(0), Some(0)));
}

#[test]
fn sampler_rounds() {
    assert_eq!(next_action(SamplerEvent::Begun { in_use: true }), SamplerAction::Wait);
    assert_eq!(next_action(SamplerEvent::Begun { in_use: false }), SamplerAction::Stop);
    assert_eq!(next_action(SamplerEvent::Waited { stopped: false }), SamplerAction::Recheck);
    assert_eq!(next_action(SamplerEvent::Waited { stopped: true }), SamplerAction::Stop);
    assert_eq!(
        next_action(SamplerEvent::Rechecked { still_used: true }),
        SamplerAction::Sample
    );
    assert_eq!(
        next_action(SamplerEvent::Rechecked { still_used: false }),
        SamplerAction::Stop
    );
    assert_eq!(next_action(SamplerEvent::Sampled), SamplerAction::Begin);
}

#[test]
fn unsampled_metrics_are_zero() {
    let snapshot = Snapshot::default();
    assert_eq!(snapshot.os, OsMetrics::default());
    assert_eq!(
        snapshot.os,
        OsMetrics { cpu: figure(0.0), ram: 0, total_ram: 0, load_avg: figure(0.0), conns: 0 }
    );
    let process = ProcessMetrics::default();
    assert_eq!(process.cpu, figure(0.0));
    assert_eq!((process.ram, process.conns), (0, 0));
    assert_eq!((process.goroutines, process.uptime), (0, 0));
    assert_eq!(process.requests, "");
    assert_eq!(snapshot.pid.requests, "");
    let sample = MetricSample::default();
    assert_eq!(sample.process_cpu, None);
    assert_eq!(sample.process_uptime, None);
    assert_eq!(sample.system_connections, None);
}
