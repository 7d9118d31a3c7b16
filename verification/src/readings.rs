//! What is read of the machine for a snapshot, and the figures computed from it.

use vstd::prelude::*;

use crate::heap;
use crate::heap::{allocator_stats, HeapReading};
use crate::ratio::{ByteRate, Figure};
use crate::snapshot::{RuntimeStats, Timestamp};
use crate::sums;

verus! {

/// What is read of the process.
#[derive(Clone, Copy, Debug)]
pub struct ProcessReading {
    /// Share of the processor time of all processors, in percent.
    pub cpu_percent: Figure,
    pub rss_bytes: u64,
}

/// Load averages over 1, 5 and 15 minutes.
#[derive(Clone, Copy, Debug)]
pub struct LoadReading {
    pub one: Figure,
    pub five: Figure,
    pub fifteen: Figure,
}

/// What is read of the descriptors of the process.
#[derive(Clone, Copy, Debug, PartialEq, Eq, Structural)]
pub enum DescriptorReading {
    /// Entries of the directory of open descriptors.
    Entries(usize),
    /// Number of handles.
    Handles(u32),
    Unknown,
}

/// What is read of a mounted file system.
#[derive(Debug)]
pub struct Mount {
    /// Components of the path of the mount point.
    pub components: Vec<Vec<u8>>,
    /// Length of the path of the mount point, in bytes.
    pub length: usize,
    pub total: u64,
    pub available: u64,
    pub file_system: String,
}

/// What is read of the system.
#[derive(Clone, Copy, Debug)]
pub struct SystemReading {
    /// Share of processor time, in percent.
    pub cpu_percent: Figure,
    pub memory_total: u64,
    pub memory_used: u64,
    pub memory_available: u64,
    /// Load averages, where the system has them.
    pub load: Option<LoadReading>,
    /// Number of network interfaces.
    pub interfaces: usize,
    /// Bytes received by all interfaces.
    pub received: u64,
    /// Bytes sent by all interfaces.
    pub sent: u64,
}

/// What is read of the runtime.
#[derive(Clone, Copy, Debug, PartialEq, Eq, Structural)]
pub enum RuntimeReading {
    /// Live tasks and workers of the running Tokio runtime.
    Tokio { tasks: usize, workers: usize },
    /// Threads of the process and processors, where no runtime is running.
    Threads { threads: Option<usize>, parallelism: Option<usize> },
}

/// Everything that is read for one snapshot.
#[derive(Debug)]
pub struct Reading {
    pub collected_at: Timestamp,
    /// Time of the reading, in nanoseconds of a steady clock.
    pub now: u128,
    pub uptime_seconds: u64,
    /// The process, where it was found.
    pub process: Option<ProcessReading>,
    pub threads: Option<usize>,
    pub descriptors: DescriptorReading,
    pub system: SystemReading,
    /// Directory in which the application was started, by its components.
    pub disk_root: Option<Vec<Vec<u8>>>,
    /// The mounted file systems; left empty where the disk is not to be read
    /// again.
    pub mounts: Vec<Mount>,
    /// Time at which they were read, in nanoseconds of the steady clock.
    pub mounts_at: u128,
    pub runtime: RuntimeReading,
    pub heap: HeapReading,
}

/// Use of the file system that the application runs on.
#[derive(Debug)]
pub struct DiskUsage {
    pub used: u64,
    pub total: u64,
    pub free: u64,
    pub fs_type: String,
}

/// Use of a file system.
#[verifier::ext_equal]
pub struct DiskState {
    pub used: u64,
    pub total: u64,
    pub free: u64,
    pub fs_type: Seq<char>,
}

impl DiskUsage {
    pub open spec fn view(&self) -> DiskState {
        DiskState {
            used: self.used,
            total: self.total,
            free: self.free,
            fs_type: self.fs_type@,
        }
    }
}

/// A mounted file system.
#[verifier::ext_equal]
pub struct MountState {
    pub components: Seq<Seq<u8>>,
    pub length: usize,
    pub total: u64,
    pub available: u64,
    pub file_system: Seq<char>,
}

/// The contents of a list of byte strings.
pub open spec fn byte_views(list: Seq<Vec<u8>>) -> Seq<Seq<u8>> {
    Seq::new(list.len(), |i: int| list[i]@)
}

impl Mount {
    pub open spec fn view(&self) -> MountState {
        MountState {
            components: byte_views(self.components@),
            length: self.length,
            total: self.total,
            available: self.available,
            file_system: self.file_system@,
        }
    }
}

pub open spec fn mount_views(mounts: Seq<Mount>) -> Seq<MountState> {
    Seq::new(mounts.len(), |i: int| mounts[i]@)
}

/// The components of a path that may be unknown.
pub open spec fn path_view(path: Option<Vec<Vec<u8>>>) -> Option<Seq<Seq<u8>>> {
    match path {
        Some(components) => Some(byte_views(components@)),
        None => None,
    }
}

/// Whether a path lies on a mount point: all components of the mount point begin
/// the path.
pub open spec fn is_on_mount(path: Seq<Seq<u8>>, mount: Seq<Seq<u8>>) -> bool {
    mount.len() <= path.len() && path.take(mount.len() as int) == mount
}

/// Whether mount `i` is the one that a path lies on: it has the longest path of
/// those that it lies on, and of several such it is the last.
pub open spec fn is_mount_of(mounts: Seq<MountState>, i: int, path: Seq<Seq<u8>>) -> bool {
    &&& 0 <= i < mounts.len()
    &&& is_on_mount(path, mounts[i].components)
    &&& forall|j: int|
        0 <= j < mounts.len() && is_on_mount(path, (#[trigger] mounts[j]).components)
            ==> mounts[j].length <= mounts[i].length && (mounts[j].length == mounts[i].length
            ==> j <= i)
}

/// The use of one file system; none where it has no size.
pub open spec fn usage_of(mount: MountState) -> Option<DiskState> {
    if mount.total == 0 {
        None
    } else {
        Some(
            DiskState {
                used: heap::minus(mount.total, mount.available),
                total: mount.total,
                free: mount.available,
                fs_type: mount.file_system,
            },
        )
    }
}

/// The use of the file system that `root` lies on.
pub open spec fn disk_of(root: Option<Seq<Seq<u8>>>, mounts: Seq<MountState>) -> Option<DiskState> {
    match root {
        Some(path) => if exists|i: int| is_mount_of(mounts, i, path) {
            usage_of(mounts[choose|i: int| is_mount_of(mounts, i, path)])
        } else {
            None
        },
        None => None,
    }
}

pub proof fn lemma_mount_is_one(mounts: Seq<MountState>, i: int, j: int, path: Seq<Seq<u8>>)
    requires
        is_mount_of(mounts, i, path),
        is_mount_of(mounts, j, path),
    ensures
        i == j,
{
    assert(mounts[i].length <= mounts[j].length);
    assert(mounts[j].length <= mounts[i].length);
}

fn same_bytes(a: &Vec<u8>, b: &Vec<u8>) -> (same: bool)
    ensures
        same == (a@ == b@),
{
    if a.len() != b.len() {
        return false;
    }
    let mut i: usize = 0;
    while i < a.len()
        invariant
            i <= a@.len(),
            a@.len() == b@.len(),
            forall|j: int| 0 <= j < i ==> a@[j] == b@[j],
        decreases a@.len() - i,
    {
        if a[i] != b[i] {
            return false;
        }
        i = i + 1;
    }
    assert(a@ =~= b@);
    true
}

/// Tests whether a path lies on a mount point, both given by their components.
pub fn path_on_mount(path: &Vec<Vec<u8>>, mount: &Vec<Vec<u8>>) -> (yes: bool)
    ensures
        yes == is_on_mount(byte_views(path@), byte_views(mount@)),
{
    let ghost p = byte_views(path@);
    let ghost m = byte_views(mount@);
    if path.len() < mount.len() {
        return false;
    }
    let mut i: usize = 0;
    while i < mount.len()
        invariant
            i <= mount@.len() <= path@.len(),
            p == byte_views(path@),
            m == byte_views(mount@),
            forall|j: int| 0 <= j < i ==> p[j] == m[j],
        decreases mount@.len() - i,
    {
        if !same_bytes(&path[i], &mount[i]) {
            proof {
                assert(p[i as int] != m[i as int]);
                assert(p.take(m.len() as int)[i as int] == p[i as int]);
            }
            return false;
        }
        i = i + 1;
    }
    assert(p.take(m.len() as int) =~= m);
    true
}

/// Time from one reading of a clock to another, zero where it went back.
pub open spec fn since(now: u128, then: u128) -> int {
    if now >= then {
        now - then
    } else {
        0
    }
}

/// Bytes per time between two readings of a counter.
pub open spec fn rate_between(before: u64, after: u64, elapsed: int) -> ByteRate {
    ByteRate { bytes: (after - before) as u64, nanos: elapsed as u128 }
}

/// Rates of receiving and sending between two readings: none where no time
/// passed or a counter went back.
pub open spec fn rates_between(
    previous_received: u64,
    previous_sent: u64,
    current_received: u64,
    current_sent: u64,
    elapsed: int,
) -> Option<(ByteRate, ByteRate)> {
    if elapsed == 0 || current_received < previous_received || current_sent < previous_sent {
        None
    } else {
        Some(
            (
                rate_between(previous_received, current_received, elapsed),
                rate_between(previous_sent, current_sent, elapsed),
            ),
        )
    }
}

/// Computes the rates of receiving and sending between two readings that are
/// `elapsed` nanoseconds apart.
pub fn network_rates(
    previous_received: u64,
    previous_sent: u64,
    current_received: u64,
    current_sent: u64,
    elapsed: u128,
) -> (rates: (Option<ByteRate>, Option<ByteRate>))
    ensures
        match rates_between(
            previous_received,
            previous_sent,
            current_received,
            current_sent,
            elapsed as int,
        ) {
            Some((receive, send)) => rates == (Some(receive), Some(send)),
            None => rates == (None::<ByteRate>, None::<ByteRate>),
        },
{
    if elapsed == 0 || current_received < previous_received || current_sent < previous_sent {
        return (None, None);
    }
    (
        Some(ByteRate { bytes: current_received - previous_received, nanos: elapsed }),
        Some(ByteRate { bytes: current_sent - previous_sent, nanos: elapsed }),
    )
}

/// What each network interface received.
pub open spec fn received_counts(counters: Seq<(u64, u64)>) -> Seq<nat> {
    Seq::new(counters.len(), |i: int| counters[i].0 as nat)
}

/// What each network interface sent.
pub open spec fn sent_counts(counters: Seq<(u64, u64)>) -> Seq<nat> {
    Seq::new(counters.len(), |i: int| counters[i].1 as nat)
}

/// Adds up what all network interfaces received and what they sent; nothing
/// where a sum is no 64-bit count.
pub fn network_totals(counters: &Vec<(u64, u64)>) -> (totals: Option<(u64, u64)>)
    ensures
        totals is Some <==> sums::total(received_counts(counters@)) <= u64::MAX && sums::total(
            sent_counts(counters@),
        ) <= u64::MAX,
        totals matches Some((received, sent)) ==> {
            &&& received == sums::total(received_counts(counters@))
            &&& sent == sums::total(sent_counts(counters@))
        },
{
    let ghost r = received_counts(counters@);
    let ghost s = sent_counts(counters@);
    let mut received: u64 = 0;
    let mut sent: u64 = 0;
    let mut i: usize = 0;
    assert(r.take(0) =~= Seq::<nat>::empty());
    assert(s.take(0) =~= Seq::<nat>::empty());
    while i < counters.len()
        invariant
            i <= counters@.len(),
            r == received_counts(counters@),
            s == sent_counts(counters@),
            received == sums::total(r.take(i as int)),
            sent == sums::total(s.take(i as int)),
        decreases counters@.len() - i,
    {
        let (more_received, more_sent) = counters[i];
        proof {
            sums::lemma_total_prefix_step(r, i as int);
            sums::lemma_total_prefix_step(s, i as int);
            sums::lemma_total_prefix_monotone(r, i + 1, r.len() as int);
            sums::lemma_total_prefix_monotone(s, i + 1, s.len() as int);
            assert(r.take(r.len() as int) =~= r);
            assert(s.take(s.len() as int) =~= s);
        }
        if received > u64::MAX - more_received || sent > u64::MAX - more_sent {
            return None;
        }
        received = received + more_received;
        sent = sent + more_sent;
        i = i + 1;
    }
    assert(r.take(r.len() as int) =~= r);
    assert(s.take(s.len() as int) =~= s);
    Some((received, sent))
}

/// A number as it fits into 32 bits with a sign; one too large counts as the
/// largest.
pub open spec fn saturated(n: int) -> i32 {
    if n <= i32::MAX {
        n as i32
    } else {
        i32::MAX
    }
}

/// Fits a count into 32 bits with a sign.
pub fn count_saturating(count: usize) -> (n: i32)
    ensures
        n == saturated(count as int),
{
    if count <= i32::MAX as usize {
        count as i32
    } else {
        i32::MAX
    }
}

/// The number of open descriptors or handles.
pub open spec fn descriptors_of(reading: DescriptorReading) -> Option<i32> {
    match reading {
        DescriptorReading::Entries(count) => Some(saturated(count as int)),
        DescriptorReading::Handles(count) => Some(count as i32),
        DescriptorReading::Unknown => None,
    }
}

/// Counts open descriptors or handles.
pub fn open_descriptors(reading: DescriptorReading) -> (count: Option<i32>)
    ensures
        count == descriptors_of(reading),
{
    match reading {
        DescriptorReading::Entries(count) => Some(count_saturating(count)),
        DescriptorReading::Handles(count) => Some(
            #[verifier::truncate]
            (count as i32),
        ),
        DescriptorReading::Unknown => None,
    }
}

/// Live tasks and workers.
pub open spec fn counts_of(reading: RuntimeReading) -> (u64, i32) {
    match reading {
        RuntimeReading::Tokio { tasks, workers } => (tasks as u64, saturated(workers as int)),
        RuntimeReading::Threads { threads, parallelism } => (
            match threads {
                Some(count) => count as u64,
                None => 0,
            },
            match parallelism {
                Some(count) => count as i32,
                None => 1,
            },
        ),
    }
}

/// Computes the number of live tasks and of workers.
pub fn runtime_counts(reading: RuntimeReading) -> (counts: (u64, i32))
    ensures
        counts == counts_of(reading),
{
    match reading {
        RuntimeReading::Tokio { tasks, workers } => (tasks as u64, count_saturating(workers)),
        RuntimeReading::Threads { threads, parallelism } => {
            let tasks: u64 = match threads {
                Some(count) => count as u64,
                None => 0,
            };
            let workers: i32 = match parallelism {
                Some(count) => #[verifier::truncate]
                (count as i32),
                None => 1,
            };
            (tasks, workers)
        },
    }
}

/// The runtime figures of a reading.
pub open spec fn runtime_of(runtime: RuntimeReading, reading: HeapReading) -> RuntimeStats {
    RuntimeStats {
        goroutines: counts_of(runtime).0,
        heap_alloc_bytes: heap::heap_of(reading).alloc_bytes,
        heap_sys_bytes: heap::heap_of(reading).sys_bytes,
        heap_inuse_bytes: heap::heap_of(reading).inuse_bytes,
        heap_idle_bytes: heap::heap_of(reading).idle_bytes,
        heap_released_bytes: heap::heap_of(reading).released_bytes,
        workers: counts_of(runtime).1,
    }
}

/// Computes the runtime figures.
pub fn collect_runtime(runtime: RuntimeReading, reading: HeapReading) -> (stats: RuntimeStats)
    ensures
        stats == runtime_of(runtime, reading),
{
    let (tasks, workers) = runtime_counts(runtime);
    let heap = allocator_stats(reading);
    RuntimeStats {
        goroutines: tasks,
        heap_alloc_bytes: heap.alloc_bytes,
        heap_sys_bytes: heap.sys_bytes,
        heap_inuse_bytes: heap.inuse_bytes,
        heap_idle_bytes: heap.idle_bytes,
        heap_released_bytes: heap.released_bytes,
        workers,
    }
}

} // verus!
