//! Collection of a snapshot from what is read of the machine.

use vstd::prelude::*;

use crate::http_stats;
use crate::http_stats::collect_http;
use crate::ratio;
use crate::ratio::{clamp_percent, ByteRate, Figure, Ratio};
use crate::readings;
use crate::readings::{
    collect_runtime, network_rates, open_descriptors, path_on_mount, DescriptorReading, DiskState,
    DiskUsage, Mount, MountState, ProcessReading, Reading, SystemReading,
};
use crate::snapshot::{CollectionStats, ProcessStats, Snapshot, SystemStats};
use crate::stats::HttpMetrics;
use crate::text;

verus! {

/// Disk usage is read at most this often, in nanoseconds. Reading it takes long,
/// and it moves too slowly to be worth that on every poll.
pub const DISK_TTL: u128 = 30_000_000_000;

pub const PROCESS_CPU: &'static str = "process.cpu";

pub const PROCESS_MEMORY: &'static str = "process.memory";

pub const PROCESS_THREADS: &'static str = "process.threads";

pub const PROCESS_DESCRIPTORS: &'static str = "process.descriptors";

pub const SYSTEM_MEMORY: &'static str = "system.memory";

pub const SYSTEM_DISK: &'static str = "system.disk";

pub const SYSTEM_NETWORK: &'static str = "system.network";

/// What is kept from one collection to the next.
#[verifier::ext_equal]
pub struct CollectorState {
    pub disk_cache: Option<DiskState>,
    pub disk_at: Option<u128>,
    pub process_cpu_seen: bool,
    pub system_cpu_seen: bool,
    pub network_seen: bool,
    pub network_received: u64,
    pub network_sent: u64,
    pub network_at: u128,
}

/// Whether the disk is to be read again.
pub open spec fn is_disk_due(state: CollectorState, now: u128) -> bool {
    match state.disk_at {
        Some(at) => readings::since(now, at) >= DISK_TTL,
        None => true,
    }
}

/// The state after the disk was looked at: it was read again at time `at` where
/// that was due at time `now`.
pub open spec fn disk_read(
    state: CollectorState,
    root: Option<Seq<Seq<u8>>>,
    mounts: Seq<MountState>,
    now: u128,
    at: u128,
) -> CollectorState {
    if is_disk_due(state, now) {
        CollectorState {
            disk_cache: readings::disk_of(root, mounts),
            disk_at: Some(at),
            ..state
        }
    } else {
        state
    }
}

/// The state after a snapshot was collected.
pub open spec fn collected(state: CollectorState, reading: Reading) -> CollectorState {
    let disk = disk_read(
        state,
        readings::path_view(reading.disk_root),
        readings::mount_views(reading.mounts@),
        reading.now,
        reading.mounts_at,
    );
    CollectorState {
        process_cpu_seen: state.process_cpu_seen || reading.process is Some,
        system_cpu_seen: true,
        network_seen: true,
        network_received: reading.system.received,
        network_sent: reading.system.sent,
        network_at: reading.now,
        ..disk
    }
}

/// The name of a metric where it is missing.
pub open spec fn named_if(missing: bool, name: Seq<char>) -> Seq<Seq<char>> {
    if missing {
        seq![name]
    } else {
        Seq::empty()
    }
}

/// The process metrics that a reading leaves out.
pub open spec fn process_errors(
    found: bool,
    threads: Option<usize>,
    descriptors: DescriptorReading,
) -> Seq<Seq<char>> {
    if found {
        named_if(threads is None, PROCESS_THREADS@) + named_if(
            descriptors is Unknown,
            PROCESS_DESCRIPTORS@,
        )
    } else {
        seq![PROCESS_CPU@, PROCESS_MEMORY@, PROCESS_THREADS@, PROCESS_DESCRIPTORS@]
    }
}

/// The system metrics that a reading leaves out.
pub open spec fn system_errors(reading: SystemReading, disk: Option<DiskState>) -> Seq<
    Seq<char>,
> {
    named_if(reading.memory_total == 0, SYSTEM_MEMORY@) + named_if(disk is None, SYSTEM_DISK@)
        + named_if(reading.interfaces == 0, SYSTEM_NETWORK@)
}

/// A figure where it is known.
pub open spec fn present_if<T>(known: bool, value: T) -> Option<T> {
    if known {
        Some(value)
    } else {
        None
    }
}

/// The process figures of a reading.
pub open spec fn process_of(
    state: CollectorState,
    process: Option<ProcessReading>,
    threads: Option<usize>,
    descriptors: DescriptorReading,
    uptime_seconds: u64,
) -> ProcessStats {
    match process {
        Some(found) => ProcessStats {
            cpu_percent: present_if(
                state.process_cpu_seen,
                ratio::percent_of(found.cpu_percent),
            ),
            rss_bytes: Some(found.rss_bytes),
            threads: match threads {
                Some(count) => Some(count as i32),
                None => None,
            },
            open_descriptors: readings::descriptors_of(descriptors),
            uptime_seconds,
        },
        None => ProcessStats {
            cpu_percent: None,
            rss_bytes: None,
            threads: None,
            open_descriptors: None,
            uptime_seconds,
        },
    }
}

/// The rates of receiving and sending since the last reading.
pub open spec fn network_of(
    state: CollectorState,
    received: u64,
    sent: u64,
    now: u128,
) -> Option<(ByteRate, ByteRate)> {
    if state.network_seen {
        readings::rates_between(
            state.network_received,
            state.network_sent,
            received,
            sent,
            readings::since(now, state.network_at),
        )
    } else {
        None
    }
}

/// Whether these are the disk figures for the use of a disk.
pub open spec fn shows_disk(stats: SystemStats, disk: Option<DiskState>) -> bool {
    match disk {
        Some(d) => {
            &&& stats.disk_used_percent == Some(
                Ratio { numerator: d.used, denominator: d.total },
            )
            &&& stats.disk_used_bytes == Some(d.used)
            &&& stats.disk_total_bytes == Some(d.total)
            &&& stats.disk_free_bytes == Some(d.free)
            &&& stats.disk_fstype is Some <==> d.fs_type.len() > 0
            &&& stats.disk_fstype matches Some(name) ==> name@ == d.fs_type
        },
        None => {
            &&& stats.disk_used_percent is None
            &&& stats.disk_used_bytes is None
            &&& stats.disk_total_bytes is None
            &&& stats.disk_free_bytes is None
            &&& stats.disk_fstype is None
        },
    }
}

/// Whether these are the system figures of a reading.
pub open spec fn shows_system(
    stats: SystemStats,
    state: CollectorState,
    reading: SystemReading,
    disk: Option<DiskState>,
    now: u128,
) -> bool {
    let known = reading.memory_total > 0;
    let network = network_of(state, reading.received, reading.sent, now);
    &&& stats.cpu_percent == present_if(
        state.system_cpu_seen,
        ratio::percent_of(reading.cpu_percent),
    )
    &&& stats.memory_used_percent == present_if(
        known,
        Ratio { numerator: reading.memory_used, denominator: reading.memory_total },
    )
    &&& stats.memory_used_bytes == present_if(known, reading.memory_used)
    &&& stats.memory_total_bytes == present_if(known, reading.memory_total)
    &&& stats.memory_available_bytes == present_if(known, reading.memory_available)
    &&& shows_disk(stats, disk)
    &&& match reading.load {
        Some(load) => {
            &&& stats.load1 == Some(load.one)
            &&& stats.load5 == Some(load.five)
            &&& stats.load15 == Some(load.fifteen)
        },
        None => stats.load1 is None && stats.load5 is None && stats.load15 is None,
    }
    &&& match network {
        Some((receive, send)) => {
            &&& stats.network_receive_bps == Some(receive)
            &&& stats.network_send_bps == Some(send)
        },
        None => stats.network_receive_bps is None && stats.network_send_bps is None,
    }
}

/// Collects snapshots and keeps what the next one needs.
pub struct Collector {
    disk_cache: Option<DiskUsage>,
    disk_at: Option<u128>,
    process_cpu_seen: bool,
    system_cpu_seen: bool,
    network_seen: bool,
    network_received: u64,
    network_sent: u64,
    network_at: u128,
}

impl Collector {
    /// What is kept.
    pub closed spec fn view(&self) -> CollectorState {
        CollectorState {
            disk_cache: match self.disk_cache {
                Some(usage) => Some(usage@),
                None => None,
            },
            disk_at: self.disk_at,
            process_cpu_seen: self.process_cpu_seen,
            system_cpu_seen: self.system_cpu_seen,
            network_seen: self.network_seen,
            network_received: self.network_received,
            network_sent: self.network_sent,
            network_at: self.network_at,
        }
    }

    /// A collector before its first snapshot.
    pub fn new() -> (collector: Self)
        ensures
            collector@ == fresh_collector(),
    {
        Collector {
            disk_cache: None,
            disk_at: None,
            process_cpu_seen: false,
            system_cpu_seen: false,
            network_seen: false,
            network_received: 0,
            network_sent: 0,
            network_at: 0,
        }
    }

    /// Reports the process: nothing but the uptime where it was not found, else
    /// what was read, the share of processor time from the second time on. What
    /// is missing is named in `errors`.
    pub fn collect_process(
        &mut self,
        process: Option<ProcessReading>,
        threads: Option<usize>,
        descriptors: DescriptorReading,
        uptime_seconds: u64,
        errors: &mut Vec<String>,
    ) -> (stats: ProcessStats)
        ensures
            stats == process_of(old(self)@, process, threads, descriptors, uptime_seconds),
            final(self)@ == (CollectorState {
                process_cpu_seen: old(self)@.process_cpu_seen || process is Some,
                ..old(self)@
            }),
            text::texts(final(errors)@) == text::texts(old(errors)@) + process_errors(
                process is Some,
                threads,
                descriptors,
            ),
    {
        let ghost before = text::texts(errors@);
        let process = match process {
            Some(process) => process,
            None => {
                errors.push(PROCESS_CPU.to_owned());
                errors.push(PROCESS_MEMORY.to_owned());
                errors.push(PROCESS_THREADS.to_owned());
                errors.push(PROCESS_DESCRIPTORS.to_owned());
                assert(text::texts(errors@) =~= before + process_errors(
                    false,
                    threads,
                    descriptors,
                ));
                return ProcessStats {
                    cpu_percent: None,
                    rss_bytes: None,
                    threads: None,
                    open_descriptors: None,
                    uptime_seconds,
                };
            },
        };
        let cpu_percent: Option<Figure> = if self.process_cpu_seen {
            Some(clamp_percent(process.cpu_percent))
        } else {
            self.process_cpu_seen = true;
            None
        };
        let thread_count: Option<i32> = match threads {
            Some(count) => Some(
                #[verifier::truncate]
                (count as i32),
            ),
            None => {
                errors.push(PROCESS_THREADS.to_owned());
                None
            },
        };
        let descriptor_count = open_descriptors(descriptors);
        if descriptor_count.is_none() {
            errors.push(PROCESS_DESCRIPTORS.to_owned());
        }
        assert(text::texts(errors@) =~= before + process_errors(true, threads, descriptors));
        ProcessStats {
            cpu_percent,
            rss_bytes: Some(process.rss_bytes),
            threads: thread_count,
            open_descriptors: descriptor_count,
            uptime_seconds,
        }
    }

    /// Tests whether the disk is to be read again: it was not read within
    /// [`DISK_TTL`].
    pub fn disk_due(&self, now: u128) -> (due: bool)
        ensures
            due == is_disk_due(self@, now),
    {
        match self.disk_at {
            Some(at) => now.saturating_sub(at) >= DISK_TTL,
            None => true,
        }
    }

    fn read_disk(disk_root: &Option<Vec<Vec<u8>>>, mounts: &Vec<Mount>) -> (usage: Option<
        DiskUsage,
    >)
        ensures
            match usage {
                Some(u) => readings::disk_of(
                    readings::path_view(*disk_root),
                    readings::mount_views(mounts@),
                ) == Some(u@),
                None => readings::disk_of(
                    readings::path_view(*disk_root),
                    readings::mount_views(mounts@),
                ) is None,
            },
    {
        let root: &Vec<Vec<u8>> = match disk_root {
            Some(root) => root,
            None => {
                return None;
            },
        };
        let ghost path = readings::byte_views(root@);
        let ghost all = readings::mount_views(mounts@);
        let mut best: Option<usize> = None;
        let mut i: usize = 0;
        while i < mounts.len()
            invariant
                i <= mounts@.len(),
                path == readings::byte_views(root@),
                all == readings::mount_views(mounts@),
                match best {
                    Some(b) => {
                        &&& b < i
                        &&& readings::is_on_mount(path, all[b as int].components)
                        &&& forall|j: int|
                            0 <= j < i && readings::is_on_mount(
                                path,
                                (#[trigger] all[j]).components,
                            ) ==> all[j].length <= all[b as int].length && (all[j].length
                                == all[b as int].length ==> j <= b)
                    },
                    None => forall|j: int|
                        0 <= j < i ==> !readings::is_on_mount(
                            path,
                            (#[trigger] all[j]).components,
                        ),
                },
            decreases mounts@.len() - i,
        {
            assert(all[i as int] == mounts@[i as int]@);
            if path_on_mount(root, &mounts[i].components) {
                let longer: bool = match best {
                    Some(b) => mounts[i].length >= mounts[b].length,
                    None => true,
                };
                if longer {
                    best = Some(i);
                }
            }
            i = i + 1;
        }
        match best {
            None => {
                proof {
                    assert forall|k: int| !readings::is_mount_of(all, k, path) by {}
                }
                None
            },
            Some(b) => {
                proof {
                    assert(readings::is_mount_of(all, b as int, path));
                    readings::lemma_mount_is_one(
                        all,
                        b as int,
                        choose|k: int| readings::is_mount_of(all, k, path),
                        path,
                    );
                    assert(all[b as int] == mounts@[b as int]@);
                }
                let mount = &mounts[b];
                if mount.total == 0 {
                    return None;
                }
                Some(
                    DiskUsage {
                        used: mount.total.saturating_sub(mount.available),
                        total: mount.total,
                        free: mount.available,
                        fs_type: mount.file_system.clone(),
                    },
                )
            },
        }
    }

    /// Looks at the disk, and reads it again where that is due. The result is
    /// kept even where the application's mount is missing, so that the next look
    /// does not read it again.
    fn application_disk(
        &mut self,
        disk_root: &Option<Vec<Vec<u8>>>,
        mounts: &Vec<Mount>,
        now: u128,
        at: u128,
    )
        ensures
            final(self)@ == disk_read(
                old(self)@,
                readings::path_view(*disk_root),
                readings::mount_views(mounts@),
                now,
                at,
            ),
    {
        if self.disk_due(now) {
            let usage = Self::read_disk(disk_root, mounts);
            self.disk_at = Some(at);
            self.disk_cache = usage;
        }
    }

    /// Reports the system: what was read, the share of processor time and the
    /// network rates from the second time on. What is missing is named in
    /// `errors`.
    pub fn collect_system(
        &mut self,
        reading: SystemReading,
        disk_root: &Option<Vec<Vec<u8>>>,
        mounts: &Vec<Mount>,
        mounts_at: u128,
        now: u128,
        errors: &mut Vec<String>,
    ) -> (stats: SystemStats)
        ensures
            ({
                let disk = disk_read(
                    old(self)@,
                    readings::path_view(*disk_root),
                    readings::mount_views(mounts@),
                    now,
                    mounts_at,
                );
                &&& final(self)@ == (CollectorState {
                    system_cpu_seen: true,
                    network_seen: true,
                    network_received: reading.received,
                    network_sent: reading.sent,
                    network_at: now,
                    ..disk
                })
                &&& shows_system(stats, old(self)@, reading, disk.disk_cache, now)
                &&& text::texts(final(errors)@) == text::texts(old(errors)@)
                    + system_errors(reading, disk.disk_cache)
            }),
    {
        let ghost before = text::texts(errors@);
        let mut stats: SystemStats = SystemStats {
            cpu_percent: None,
            memory_used_percent: None,
            memory_used_bytes: None,
            memory_total_bytes: None,
            memory_available_bytes: None,
            disk_used_percent: None,
            disk_used_bytes: None,
            disk_total_bytes: None,
            disk_free_bytes: None,
            disk_fstype: None,
            load1: None,
            load5: None,
            load15: None,
            network_receive_bps: None,
            network_send_bps: None,
        };
        if self.system_cpu_seen {
            stats.cpu_percent = Some(clamp_percent(reading.cpu_percent));
        } else {
            self.system_cpu_seen = true;
        }

        if reading.memory_total > 0 {
            stats.memory_used_percent = Some(
                Ratio { numerator: reading.memory_used, denominator: reading.memory_total },
            );
            stats.memory_used_bytes = Some(reading.memory_used);
            stats.memory_total_bytes = Some(reading.memory_total);
            stats.memory_available_bytes = Some(reading.memory_available);
        } else {
            errors.push(SYSTEM_MEMORY.to_owned());
        }
        let ghost after_memory = text::texts(errors@);
        assert(after_memory =~= before + named_if(reading.memory_total == 0, SYSTEM_MEMORY@));

        self.application_disk(disk_root, mounts, now, mounts_at);
        let ghost disk = self@.disk_cache;
        match &self.disk_cache {
            Some(usage) => {
                stats.disk_used_percent = Some(
                    Ratio { numerator: usage.used, denominator: usage.total },
                );
                stats.disk_used_bytes = Some(usage.used);
                stats.disk_total_bytes = Some(usage.total);
                stats.disk_free_bytes = Some(usage.free);
                if !usage.fs_type.as_str().is_empty() {
                    stats.disk_fstype = Some(usage.fs_type.clone());
                }
            },
            None => {
                errors.push(SYSTEM_DISK.to_owned());
            },
        }
        let ghost after_disk = text::texts(errors@);
        assert(after_disk =~= after_memory + named_if(disk is None, SYSTEM_DISK@));

        match reading.load {
            Some(load) => {
                stats.load1 = Some(load.one);
                stats.load5 = Some(load.five);
                stats.load15 = Some(load.fifteen);
            },
            None => {},
        }

        if self.network_seen {
            let (receive, send) = network_rates(
                self.network_received,
                self.network_sent,
                reading.received,
                reading.sent,
                now.saturating_sub(self.network_at),
            );
            stats.network_receive_bps = receive;
            stats.network_send_bps = send;
        } else {
            self.network_seen = true;
        }
        if reading.interfaces == 0 {
            errors.push(SYSTEM_NETWORK.to_owned());
        }
        assert(text::texts(errors@) =~= after_disk + named_if(
            reading.interfaces == 0,
            SYSTEM_NETWORK@,
        ));
        assert(text::texts(errors@) =~= before + system_errors(reading, disk));
        self.network_received = reading.received;
        self.network_sent = reading.sent;
        self.network_at = now;
        stats
    }

    /// Collects a snapshot from a reading and from the HTTP metrics in second
    /// `tick`, at Unix time `unix`.
    pub fn collect(
        &mut self,
        reading: Reading,
        http: &HttpMetrics,
        tick: u64,
        unix: i64,
    ) -> (snapshot: Snapshot)
        requires
            http.wf(),
            http_stats::can_report(http@, tick as int),
        ensures
            final(self)@ == collected(old(self)@, reading),
            shows_reading(snapshot, old(self)@, reading),
            snapshot.http.reports(http@, tick as int, unix),
    {
        let mut errors: Vec<String> = Vec::new();
        assert(text::texts(errors@) =~= Seq::<Seq<char>>::empty());
        let process = self.collect_process(
            reading.process,
            reading.threads,
            reading.descriptors,
            reading.uptime_seconds,
            &mut errors,
        );
        let system = self.collect_system(
            reading.system,
            &reading.disk_root,
            &reading.mounts,
            reading.mounts_at,
            reading.now,
            &mut errors,
        );
        let partial: bool = errors.len() > 0;
        proof {
            let disk = collected(old(self)@, reading).disk_cache;
            assert(text::texts(errors@) =~= process_errors(
                reading.process is Some,
                reading.threads,
                reading.descriptors,
            ) + system_errors(reading.system, disk));
            assert(errors@.len() == text::texts(errors@).len());
        }
        Snapshot {
            collected_at: reading.collected_at,
            collection: CollectionStats { partial, errors },
            process,
            runtime: collect_runtime(reading.runtime, reading.heap),
            system,
            http: collect_http(http, tick, unix),
        }
    }
}

/// The metrics that a reading leaves out.
pub open spec fn missing(state: CollectorState, reading: Reading) -> Seq<Seq<char>> {
    process_errors(reading.process is Some, reading.threads, reading.descriptors) + system_errors(
        reading.system,
        collected(state, reading).disk_cache,
    )
}

/// Whether the machine's part of a snapshot is that of a reading.
pub open spec fn shows_reading(
    snapshot: Snapshot,
    state: CollectorState,
    reading: Reading,
) -> bool {
    &&& snapshot.collected_at == reading.collected_at
    &&& text::texts(snapshot.collection.errors@) == missing(state, reading)
    &&& snapshot.collection.partial == (missing(state, reading).len() > 0)
    &&& snapshot.process == process_of(
        state,
        reading.process,
        reading.threads,
        reading.descriptors,
        reading.uptime_seconds,
    )
    &&& snapshot.runtime == readings::runtime_of(reading.runtime, reading.heap)
    &&& shows_system(
        snapshot.system,
        state,
        reading.system,
        collected(state, reading).disk_cache,
        reading.now,
    )
}

/// A collector before its first snapshot.
pub open spec fn fresh_collector() -> CollectorState {
    CollectorState {
        disk_cache: None,
        disk_at: None,
        process_cpu_seen: false,
        system_cpu_seen: false,
        network_seen: false,
        network_received: 0,
        network_sent: 0,
        network_at: 0,
    }
}

/// The first snapshot has no share of processor time and no network rates.
pub proof fn law_first_rates_are_absent(
    snapshot: Snapshot,
    reading: Reading,
)
    requires
        shows_reading(snapshot, fresh_collector(), reading),
    ensures
        snapshot.process.cpu_percent is None,
        snapshot.system.cpu_percent is None,
        snapshot.system.network_receive_bps is None,
        snapshot.system.network_send_bps is None,
{
}

/// From the second snapshot on they are present, as far as the process was found
/// both times, time has passed and no counter went back.
pub proof fn law_second_rates_are_present(
    snapshot: Snapshot,
    state: CollectorState,
    first: Reading,
    second: Reading,
)
    requires
        shows_reading(snapshot, collected(state, first), second),
    ensures
        first.process is Some && second.process is Some ==> snapshot.process.cpu_percent == Some(
            ratio::percent_of(second.process->0.cpu_percent),
        ),
        snapshot.system.cpu_percent == Some(ratio::percent_of(second.system.cpu_percent)),
        second.now > first.now && second.system.received >= first.system.received
            && second.system.sent >= first.system.sent ==> {
            &&& snapshot.system.network_receive_bps == Some(
                ByteRate {
                    bytes: (second.system.received - first.system.received) as u64,
                    nanos: (second.now - first.now) as u128,
                },
            )
            &&& snapshot.system.network_send_bps == Some(
                ByteRate {
                    bytes: (second.system.sent - first.system.sent) as u64,
                    nanos: (second.now - first.now) as u128,
                },
            )
        },
{
}

/// Disk usage that was read stays for [`DISK_TTL`], whatever is read meanwhile.
pub proof fn law_disk_is_kept(state: CollectorState, reading: Reading)
    requires
        state.disk_at is Some,
        reading.now < state.disk_at->0 + DISK_TTL,
    ensures
        collected(state, reading).disk_cache == state.disk_cache,
        collected(state, reading).disk_at == state.disk_at,
{
}

/// A snapshot is partial exactly where a metric is named as missing, and a
/// process or system metric that is named has no value.
pub proof fn law_missing_metrics_are_named(
    snapshot: Snapshot,
    state: CollectorState,
    reading: Reading,
)
    requires
        shows_reading(snapshot, state, reading),
    ensures
        snapshot.collection.partial <==> snapshot.collection.errors@.len() > 0,
        missing(state, reading).contains(PROCESS_MEMORY@) ==> snapshot.process.rss_bytes is None,
        missing(state, reading).contains(PROCESS_CPU@) ==> snapshot.process.cpu_percent is None,
        missing(state, reading).contains(PROCESS_THREADS@) ==> snapshot.process.threads is None,
        missing(state, reading).contains(PROCESS_DESCRIPTORS@)
            ==> snapshot.process.open_descriptors is None,
        missing(state, reading).contains(SYSTEM_MEMORY@) ==> snapshot.system.memory_total_bytes
            is None,
        missing(state, reading).contains(SYSTEM_DISK@) ==> snapshot.system.disk_total_bytes
            is None,
{
    reveal_strlit("process.cpu");
    reveal_strlit("process.memory");
    reveal_strlit("process.threads");
    reveal_strlit("process.descriptors");
    reveal_strlit("system.memory");
    reveal_strlit("system.disk");
    reveal_strlit("system.network");
    assert(text::texts(snapshot.collection.errors@).len()
        == snapshot.collection.errors@.len());
    assert(PROCESS_CPU@.len() == 11);
    assert(PROCESS_MEMORY@.len() == 14);
    assert(PROCESS_THREADS@.len() == 15);
    assert(PROCESS_DESCRIPTORS@.len() == 19);
    assert(SYSTEM_MEMORY@.len() == 13);
    assert(SYSTEM_DISK@.len() == 11);
    assert(SYSTEM_NETWORK@.len() == 14);
    assert(PROCESS_CPU@[0] == 'p');
    assert(SYSTEM_DISK@[0] == 's');
    assert(PROCESS_MEMORY@[0] == 'p');
    assert(SYSTEM_NETWORK@[0] == 's');
}

/// A process that was not found is reported without any figure but the uptime,
/// and its four metrics are named. One that was found is reported with its
/// memory, and its threads and descriptors are named exactly where they are
/// missing. Its share of processor time is missing the first time and within 0
/// and 100 from then on, where it is a number.
pub proof fn law_process_is_reported(
    state: CollectorState,
    process: Option<ProcessReading>,
    threads: Option<usize>,
    descriptors: DescriptorReading,
    uptime_seconds: u64,
)
    ensures
        ({
            let stats = process_of(state, process, threads, descriptors, uptime_seconds);
            let errors = process_errors(process is Some, threads, descriptors);
            match process {
                None => {
                    &&& stats.cpu_percent is None
                    &&& stats.rss_bytes is None
                    &&& stats.threads is None
                    &&& stats.open_descriptors is None
                    &&& errors == seq![
                        PROCESS_CPU@,
                        PROCESS_MEMORY@,
                        PROCESS_THREADS@,
                        PROCESS_DESCRIPTORS@,
                    ]
                },
                Some(found) => {
                    &&& stats.cpu_percent is Some <==> state.process_cpu_seen
                    &&& stats.cpu_percent is Some && !found.cpu_percent.is_nan()
                        ==> stats.cpu_percent->0.is_percent()
                    &&& stats.rss_bytes is Some
                    &&& errors.contains(PROCESS_THREADS@) <==> threads is None
                    &&& errors.contains(PROCESS_DESCRIPTORS@) <==> stats.open_descriptors is None
                    &&& forall|i: int|
                        0 <= i < errors.len() ==> #[trigger] errors[i] == PROCESS_THREADS@
                            || errors[i] == PROCESS_DESCRIPTORS@
                },
            }
        }),
{
    reveal_strlit("process.threads");
    reveal_strlit("process.descriptors");
    assert(PROCESS_THREADS@.len() != PROCESS_DESCRIPTORS@.len());
    let errors = process_errors(process is Some, threads, descriptors);
    if process is Some {
        if threads is None {
            assert(errors[0] == PROCESS_THREADS@);
        }
        if descriptors is Unknown {
            assert(errors[errors.len() - 1] == PROCESS_DESCRIPTORS@);
        }
    }
}

} // verus!
