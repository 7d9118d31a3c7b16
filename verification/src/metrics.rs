//! Metrics that a background sampler keeps up to date.

use vstd::prelude::*;

use crate::ratio::Figure;
use crate::sums;
use crate::text;
use crate::text::{decimal, text_of};
use crate::window;

verus! {

/// Metrics of the process.
#[derive(Clone, Debug)]
pub struct ProcessMetrics {
    pub cpu: Figure,
    pub ram: u64,
    pub conns: u64,
    pub goroutines: u64,
    pub requests: String,
    pub uptime: u64,
}

/// Metrics of the system.
#[derive(Clone, Copy, Debug, PartialEq, Eq, Structural)]
pub struct OsMetrics {
    pub cpu: Figure,
    pub ram: u64,
    pub total_ram: u64,
    pub load_avg: Figure,
    pub conns: u64,
}

/// Metrics of the process and of the system.
#[derive(Clone, Debug)]
pub struct Snapshot {
    pub pid: ProcessMetrics,
    pub os: OsMetrics,
}

/// A partial sample. Unavailable values retain their last successful value.
#[derive(Clone, Copy, Debug, PartialEq, Eq, Structural)]
pub struct MetricSample {
    pub process_cpu: Option<Figure>,
    pub process_ram: Option<u64>,
    pub process_connections: Option<u64>,
    pub process_threads: Option<u64>,
    pub process_uptime: Option<u64>,
    pub system_cpu: Option<Figure>,
    pub system_ram: Option<u64>,
    pub system_total_ram: Option<u64>,
    pub system_load_average: Option<Figure>,
    pub system_connections: Option<u64>,
}

/// Source of the samples of a background sampler.
pub trait MetricsCollector: Send + 'static {
    fn collect(&mut self) -> MetricSample;
}

/// What is known of the process but for the requests, and of the system.
#[verifier::ext_equal]
pub struct SampledState {
    pub process_cpu: Figure,
    pub process_ram: u64,
    pub process_connections: u64,
    pub process_threads: u64,
    pub process_uptime: u64,
    pub os: OsMetrics,
}

/// What is known, and the number of requests.
#[verifier::ext_equal]
pub struct MetricsView {
    pub sampled: SampledState,
    pub requests: u64,
}

impl Snapshot {
    /// The sampled part of a snapshot.
    pub open spec fn sampled(&self) -> SampledState {
        SampledState {
            process_cpu: self.pid.cpu,
            process_ram: self.pid.ram,
            process_connections: self.pid.conns,
            process_threads: self.pid.goroutines,
            process_uptime: self.pid.uptime,
            os: self.os,
        }
    }
}

/// A new value where there is one, else the last one.
pub open spec fn latest<T>(last: T, value: Option<T>) -> T {
    match value {
        Some(v) => v,
        None => last,
    }
}

/// What is known after a sample.
pub open spec fn applied(known: SampledState, sample: MetricSample) -> SampledState {
    SampledState {
        process_cpu: latest(known.process_cpu, sample.process_cpu),
        process_ram: latest(known.process_ram, sample.process_ram),
        process_connections: latest(known.process_connections, sample.process_connections),
        process_threads: latest(known.process_threads, sample.process_threads),
        process_uptime: latest(known.process_uptime, sample.process_uptime),
        os: OsMetrics {
            cpu: latest(known.os.cpu, sample.system_cpu),
            ram: latest(known.os.ram, sample.system_ram),
            total_ram: latest(known.os.total_ram, sample.system_total_ram),
            load_avg: latest(known.os.load_avg, sample.system_load_average),
            conns: latest(known.os.conns, sample.system_connections),
        },
    }
}

/// What is known of the system before the first sample.
pub open spec fn nothing_known() -> OsMetrics {
    OsMetrics {
        cpu: Figure { bits: 0 },
        ram: 0,
        total_ram: 0,
        load_avg: Figure { bits: 0 },
        conns: 0,
    }
}

/// What is known before the first sample.
pub open spec fn nothing_sampled() -> SampledState {
    SampledState {
        process_cpu: Figure { bits: 0 },
        process_ram: 0,
        process_connections: 0,
        process_threads: 0,
        process_uptime: 0,
        os: nothing_known(),
    }
}

impl Default for ProcessMetrics {
    fn default() -> (metrics: Self)
        ensures
            metrics.cpu == (Figure { bits: 0 }),
            metrics.ram == 0,
            metrics.conns == 0,
            metrics.goroutines == 0,
            metrics.requests@.len() == 0,
            metrics.uptime == 0,
    {
        ProcessMetrics {
            cpu: Figure { bits: 0 },
            ram: 0,
            conns: 0,
            goroutines: 0,
            requests: String::new(),
            uptime: 0,
        }
    }
}

impl Default for OsMetrics {
    fn default() -> (metrics: Self)
        ensures
            metrics == nothing_known(),
    {
        OsMetrics {
            cpu: Figure { bits: 0 },
            ram: 0,
            total_ram: 0,
            load_avg: Figure { bits: 0 },
            conns: 0,
        }
    }
}

impl Default for Snapshot {
    fn default() -> (snapshot: Self)
        ensures
            snapshot.sampled() == nothing_sampled(),
            snapshot.pid.requests@.len() == 0,
    {
        Snapshot { pid: ProcessMetrics::default(), os: OsMetrics::default() }
    }
}

impl Default for MetricSample {
    fn default() -> (sample: Self)
        ensures
            sample == (MetricSample {
                process_cpu: None,
                process_ram: None,
                process_connections: None,
                process_threads: None,
                process_uptime: None,
                system_cpu: None,
                system_ram: None,
                system_total_ram: None,
                system_load_average: None,
                system_connections: None,
            }),
    {
        MetricSample {
            process_cpu: None,
            process_ram: None,
            process_connections: None,
            process_threads: None,
            process_uptime: None,
            system_cpu: None,
            system_ram: None,
            system_total_ram: None,
            system_load_average: None,
            system_connections: None,
        }
    }
}

/// Takes over a value where there is one.
pub fn assign<T>(target: &mut T, value: Option<T>)
    ensures
        *final(target) == latest(*old(target), value),
{
    match value {
        Some(v) => {
            *target = v;
        },
        None => {},
    }
}

/// The last known metrics and the number of requests.
pub struct MetricsState {
    snapshot: Snapshot,
    requests: u64,
}

impl MetricsState {
    pub closed spec fn view(&self) -> MetricsView {
        MetricsView { sampled: self.snapshot.sampled(), requests: self.requests }
    }

    /// Metrics before the first sample.
    pub fn new() -> (state: Self)
        ensures
            state@ == (MetricsView { sampled: nothing_sampled(), requests: 0 }),
    {
        MetricsState { snapshot: Snapshot::default(), requests: 0 }
    }

    /// Counts a request.
    pub fn increment_requests(&mut self)
        ensures
            final(self)@ == (MetricsView {
                requests: window::bumped(old(self)@.requests),
                ..old(self)@
            }),
    {
        self.requests = self.requests.wrapping_add(1);
    }

    /// The last known metrics. Where no uptime was sampled it is the time since
    /// the start, `elapsed_secs`.
    pub fn snapshot(&self, elapsed_secs: u64) -> (snapshot: Snapshot)
        ensures
            snapshot.sampled() == (SampledState {
                process_uptime: if self@.sampled.process_uptime == 0 {
                    elapsed_secs
                } else {
                    self@.sampled.process_uptime
                },
                ..self@.sampled
            }),
            snapshot.pid.requests@ == text::numeral(self@.requests as nat),
    {
        let known = &self.snapshot;
        let requests = decimal(self.requests as u128);
        Snapshot {
            pid: ProcessMetrics {
                cpu: known.pid.cpu,
                ram: known.pid.ram,
                conns: known.pid.conns,
                goroutines: known.pid.goroutines,
                requests: text_of(requests.as_slice()),
                uptime: if known.pid.uptime == 0 {
                    elapsed_secs
                } else {
                    known.pid.uptime
                },
            },
            os: known.os,
        }
    }

    /// Takes over what a sample has.
    pub fn apply(&mut self, sample: MetricSample)
        ensures
            final(self)@ == (MetricsView {
                sampled: applied(old(self)@.sampled, sample),
                ..old(self)@
            }),
    {
        assign(&mut self.snapshot.pid.cpu, sample.process_cpu);
        assign(&mut self.snapshot.pid.ram, sample.process_ram);
        assign(&mut self.snapshot.pid.conns, sample.process_connections);
        assign(&mut self.snapshot.pid.goroutines, sample.process_threads);
        assign(&mut self.snapshot.pid.uptime, sample.process_uptime);
        assign(&mut self.snapshot.os.cpu, sample.system_cpu);
        assign(&mut self.snapshot.os.ram, sample.system_ram);
        assign(&mut self.snapshot.os.total_ram, sample.system_total_ram);
        assign(&mut self.snapshot.os.load_avg, sample.system_load_average);
        assign(&mut self.snapshot.os.conns, sample.system_connections);
    }
}

/// A sample without any value changes nothing.
pub proof fn law_unavailable_values_are_retained(known: SampledState, sample: MetricSample)
    requires
        sample == (MetricSample {
            process_cpu: None,
            process_ram: None,
            process_connections: None,
            process_threads: None,
            process_uptime: None,
            system_cpu: None,
            system_ram: None,
            system_total_ram: None,
            system_load_average: None,
            system_connections: None,
        }),
    ensures
        applied(known, sample) == known,
{
}

/// A value that one sample has and the next has not is still known.
pub proof fn law_last_value_is_known(known: SampledState, first: MetricSample, second: MetricSample)
    ensures
        first.process_cpu is Some && second.process_cpu is None ==> applied(
            applied(known, first),
            second,
        ).process_cpu == first.process_cpu->0,
        first.process_ram is Some && second.process_ram is None ==> applied(
            applied(known, first),
            second,
        ).process_ram == first.process_ram->0,
        first.process_connections is Some && second.process_connections is None ==> applied(
            applied(known, first),
            second,
        ).process_connections == first.process_connections->0,
        first.process_threads is Some && second.process_threads is None ==> applied(
            applied(known, first),
            second,
        ).process_threads == first.process_threads->0,
        first.process_uptime is Some && second.process_uptime is None ==> applied(
            applied(known, first),
            second,
        ).process_uptime == first.process_uptime->0,
        first.system_cpu is Some && second.system_cpu is None ==> applied(
            applied(known, first),
            second,
        ).os.cpu == first.system_cpu->0,
        first.system_ram is Some && second.system_ram is None ==> applied(
            applied(known, first),
            second,
        ).os.ram == first.system_ram->0,
        first.system_total_ram is Some && second.system_total_ram is None ==> applied(
            applied(known, first),
            second,
        ).os.total_ram == first.system_total_ram->0,
        first.system_load_average is Some && second.system_load_average is None ==> applied(
            applied(known, first),
            second,
        ).os.load_avg == first.system_load_average->0,
        first.system_connections is Some && second.system_connections is None ==> applied(
            applied(known, first),
            second,
        ).os.conns == first.system_connections->0,
{
}

/// A socket of the system.
#[derive(Debug)]
pub struct SocketEntry {
    pub tcp: bool,
    /// The processes that it belongs to.
    pub pids: Vec<u32>,
}

/// TCP sockets among some sockets.
pub open spec fn tcp_count(sockets: Seq<SocketEntry>) -> nat
    decreases sockets.len(),
{
    if sockets.len() == 0 {
        0
    } else {
        tcp_count(sockets.drop_last()) + (if sockets.last().tcp {
            1nat
        } else {
            0
        })
    }
}

/// TCP sockets of a process among some sockets.
pub open spec fn process_tcp_count(sockets: Seq<SocketEntry>, pid: u32) -> nat
    decreases sockets.len(),
{
    if sockets.len() == 0 {
        0
    } else {
        process_tcp_count(sockets.drop_last(), pid) + (if sockets.last().tcp
            && sockets.last().pids@.contains(pid) {
            1nat
        } else {
            0
        })
    }
}

fn holds_pid(pids: &Vec<u32>, pid: u32) -> (yes: bool)
    ensures
        yes == pids@.contains(pid),
{
    let mut i: usize = 0;
    while i < pids.len()
        invariant
            i <= pids@.len(),
            forall|j: int| 0 <= j < i ==> pids@[j] != pid,
        decreases pids@.len() - i,
    {
        if pids[i] == pid {
            return true;
        }
        i = i + 1;
    }
    false
}

/// Counts the TCP sockets of the system and of the process `pid`, where the
/// sockets could be listed.
pub fn tcp_connection_counts(sockets: &Option<Vec<SocketEntry>>, pid: u32) -> (counts: (
    Option<u64>,
    Option<u64>,
))
    ensures
        match sockets {
            Some(list) => {
                &&& counts.0 matches Some(n) && n == tcp_count(list@)
                &&& counts.1 matches Some(n) && n == process_tcp_count(list@, pid)
            },
            None => counts.0 is None && counts.1 is None,
        },
{
    let list: &Vec<SocketEntry> = match sockets {
        Some(list) => list,
        None => {
            return (None, None);
        },
    };
    let mut system_count: u64 = 0;
    let mut process_count: u64 = 0;
    let mut i: usize = 0;
    assert(list@.take(0) =~= Seq::<SocketEntry>::empty());
    while i < list.len()
        invariant
            i <= list@.len(),
            system_count == tcp_count(list@.take(i as int)),
            process_count == process_tcp_count(list@.take(i as int), pid),
            process_count <= system_count <= i,
        decreases list@.len() - i,
    {
        assert(list@.take(i + 1).drop_last() =~= list@.take(i as int));
        if list[i].tcp {
            system_count = system_count.saturating_add(1);
            if holds_pid(&list[i].pids, pid) {
                process_count = process_count.saturating_add(1);
            }
        }
        i = i + 1;
    }
    assert(list@.take(list@.len() as int) =~= list@);
    (Some(system_count), Some(process_count))
}

/// What a background sampler has found out.
#[derive(Clone, Copy, Debug, PartialEq, Eq, Structural)]
pub enum SamplerEvent {
    /// A round begins; the sampled metrics are still in use or not.
    Begun { in_use: bool },
    /// The refresh interval has passed, or the sampler was told to stop.
    Waited { stopped: bool },
    /// After the wait the metrics are still in use or not.
    Rechecked { still_used: bool },
    /// A sample was taken over.
    Sampled,
}

/// What a background sampler does next.
#[derive(Clone, Copy, Debug, PartialEq, Eq, Structural)]
pub enum SamplerAction {
    /// Begin a round: find out whether the metrics are in use.
    Begin,
    /// Wait for the refresh interval, or until told to stop.
    Wait,
    /// Find out whether the metrics are still in use.
    Recheck,
    /// Take a sample.
    Sample,
    Stop,
}

/// The next action of a background sampler.
pub open spec fn action_after(event: SamplerEvent) -> SamplerAction {
    match event {
        SamplerEvent::Begun { in_use } => if in_use {
            SamplerAction::Wait
        } else {
            SamplerAction::Stop
        },
        SamplerEvent::Waited { stopped } => if stopped {
            SamplerAction::Stop
        } else {
            SamplerAction::Recheck
        },
        SamplerEvent::Rechecked { still_used } => if still_used {
            SamplerAction::Sample
        } else {
            SamplerAction::Stop
        },
        SamplerEvent::Sampled => SamplerAction::Begin,
    }
}

/// Decides what a background sampler does next.
pub fn next_action(event: SamplerEvent) -> (action: SamplerAction)
    ensures
        action == action_after(event),
{
    match event {
        SamplerEvent::Begun { in_use } => if in_use {
            SamplerAction::Wait
        } else {
            SamplerAction::Stop
        },
        SamplerEvent::Waited { stopped } => if stopped {
            SamplerAction::Stop
        } else {
            SamplerAction::Recheck
        },
        SamplerEvent::Rechecked { still_used } => if still_used {
            SamplerAction::Sample
        } else {
            SamplerAction::Stop
        },
        SamplerEvent::Sampled => SamplerAction::Begin,
    }
}

/// A value that a sample has is what metrics show under its name, and what it has
/// not stays.
pub proof fn law_samples_are_shown(
    before: Snapshot,
    after: Snapshot,
    sample: MetricSample,
)
    requires
        after.sampled() == applied(before.sampled(), sample),
    ensures
        after.pid.cpu == (match sample.process_cpu {
            Some(v) => v,
            None => before.pid.cpu,
        }),
        after.pid.ram == (match sample.process_ram {
            Some(v) => v,
            None => before.pid.ram,
        }),
        after.pid.conns == (match sample.process_connections {
            Some(v) => v,
            None => before.pid.conns,
        }),
        after.pid.goroutines == (match sample.process_threads {
            Some(v) => v,
            None => before.pid.goroutines,
        }),
        after.pid.uptime == (match sample.process_uptime {
            Some(v) => v,
            None => before.pid.uptime,
        }),
        after.os.cpu == (match sample.system_cpu {
            Some(v) => v,
            None => before.os.cpu,
        }),
        after.os.ram == (match sample.system_ram {
            Some(v) => v,
            None => before.os.ram,
        }),
        after.os.total_ram == (match sample.system_total_ram {
            Some(v) => v,
            None => before.os.total_ram,
        }),
        after.os.load_avg == (match sample.system_load_average {
            Some(v) => v,
            None => before.os.load_avg,
        }),
        after.os.conns == (match sample.system_connections {
            Some(v) => v,
            None => before.os.conns,
        }),
{
}

/// The connections of the system are its TCP sockets, those of a process the ones
/// among them that it holds.
pub proof fn law_connections_are_tcp_sockets(sockets: Seq<SocketEntry>, pid: u32)
    ensures
        tcp_count(sockets) == sums::how_many(sockets, |s: SocketEntry| s.tcp),
        process_tcp_count(sockets, pid) == sums::how_many(
            sockets,
            |s: SocketEntry| s.tcp && s.pids@.contains(pid),
        ),
        process_tcp_count(sockets, pid) <= tcp_count(sockets),
    decreases sockets.len(),
{
    if sockets.len() > 0 {
        law_connections_are_tcp_sockets(sockets.drop_last(), pid);
    }
}

/// A sampler stops exactly where the metrics are no longer in use or it is told
/// to. It takes a sample only after a wait at whose end they are still in use, and
/// then begins anew.
pub proof fn law_sampler_samples_what_is_used(event: SamplerEvent)
    ensures
        action_after(event) == SamplerAction::Stop <==> (event == SamplerEvent::Begun {
            in_use: false,
        } || event == SamplerEvent::Waited { stopped: true } || event == SamplerEvent::Rechecked {
            still_used: false,
        }),
        action_after(event) == SamplerAction::Sample <==> event == (SamplerEvent::Rechecked {
            still_used: true,
        }),
        action_after(event) == SamplerAction::Recheck <==> event == (SamplerEvent::Waited {
            stopped: false,
        }),
        action_after(event) == SamplerAction::Wait <==> event == (SamplerEvent::Begun {
            in_use: true,
        }),
        action_after(event) == SamplerAction::Begin <==> event == SamplerEvent::Sampled,
{
}

} // verus!
