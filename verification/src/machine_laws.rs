//! Which figure of a snapshot is which reading of the machine.

use vstd::prelude::*;

use crate::collect;
use crate::collect::CollectorState;
use crate::dashboard_laws;
use crate::heap;
use crate::heap::HeapReading;
use crate::ratio::Figure;
use crate::readings;
use crate::readings::{DescriptorReading, MountState, Reading, RuntimeReading};
use crate::snapshot::Snapshot;
use crate::stats_laws;
use crate::sums;
use crate::text;

verus! {

/// A snapshot has the memory of the system as it was read: used, total and
/// available bytes, and the share of the used among all. It has none of them
/// where the system tells no memory.
pub proof fn law_memory_is_as_read(snapshot: Snapshot, state: CollectorState, reading: Reading)
    requires
        collect::shows_reading(snapshot, state, reading),
    ensures
        ({
            let system = snapshot.system;
            if reading.system.memory_total > 0 {
                &&& system.memory_used_bytes == Some(reading.system.memory_used)
                &&& system.memory_total_bytes == Some(reading.system.memory_total)
                &&& system.memory_available_bytes == Some(reading.system.memory_available)
                &&& system.memory_used_percent matches Some(share) && Some(share.numerator)
                    == system.memory_used_bytes && Some(share.denominator)
                    == system.memory_total_bytes
            } else {
                &&& system.memory_used_bytes is None
                &&& system.memory_total_bytes is None
                &&& system.memory_available_bytes is None
                &&& system.memory_used_percent is None
            }
        }),
{
}

/// A snapshot has the load averages over one, five and fifteen minutes as they
/// were read, and none where the system has none.
pub proof fn law_load_is_as_read(snapshot: Snapshot, state: CollectorState, reading: Reading)
    requires
        collect::shows_reading(snapshot, state, reading),
    ensures
        reading.system.load is None ==> {
            &&& snapshot.system.load1 is None
            &&& snapshot.system.load5 is None
            &&& snapshot.system.load15 is None
        },
        reading.system.load matches Some(load) ==> {
            &&& snapshot.system.load1 == Some(load.one)
            &&& snapshot.system.load5 == Some(load.five)
            &&& snapshot.system.load15 == Some(load.fifteen)
        },
{
}

/// A share that is told where another one was read, both by their bits: a
/// negative one is told as zero, one over a hundred as a hundred, and any other
/// as it is.
pub open spec fn told_as(read: Figure, told: Figure) -> bool {
    if 0x8000_0000_0000_0000 < read.bits && read.bits <= 0xfff0_0000_0000_0000 {
        told.bits == 0
    } else if 0x4059_0000_0000_0000 < read.bits && read.bits <= 0x7ff0_0000_0000_0000 {
        told.bits == 0x4059_0000_0000_0000
    } else {
        told.bits == read.bits
    }
}

/// The share of processor time of the system, and that of the process where it
/// was found, are told from the second reading on.
pub proof fn law_processor_time_is_as_read(
    snapshot: Snapshot,
    state: CollectorState,
    first: Reading,
    second: Reading,
)
    requires
        collect::shows_reading(snapshot, collect::collected(state, first), second),
    ensures
        snapshot.system.cpu_percent matches Some(told) && told_as(second.system.cpu_percent, told),
        second.process is None ==> snapshot.process.cpu_percent is None,
        second.process matches Some(found) ==> first.process is Some
            ==> (snapshot.process.cpu_percent matches Some(told) && told_as(found.cpu_percent, told)),
{
}

/// A snapshot has the uptime, the memory, the threads and the descriptors of the
/// process as they were read. Counts that fit into 31 bits are exact.
pub proof fn law_process_is_as_read(snapshot: Snapshot, state: CollectorState, reading: Reading)
    requires
        collect::shows_reading(snapshot, state, reading),
    ensures
        snapshot.collected_at == reading.collected_at,
        snapshot.process.uptime_seconds == reading.uptime_seconds,
        reading.process is None ==> {
            &&& snapshot.process.rss_bytes is None
            &&& snapshot.process.threads is None
            &&& snapshot.process.open_descriptors is None
        },
        reading.process matches Some(found) ==> {
            &&& snapshot.process.rss_bytes == Some(found.rss_bytes)
            &&& reading.threads is None ==> snapshot.process.threads is None
            &&& reading.threads matches Some(count) ==> count <= 0x7fff_ffff
                ==> (snapshot.process.threads matches Some(told) && told == count)
            &&& match reading.descriptors {
                DescriptorReading::Entries(count) => if count <= 0x7fff_ffff {
                    snapshot.process.open_descriptors matches Some(told) && told == count
                } else {
                    snapshot.process.open_descriptors == Some(0x7fff_ffffi32)
                },
                DescriptorReading::Handles(count) => count <= 0x7fff_ffff
                    ==> (snapshot.process.open_descriptors matches Some(told) && told == count),
                DescriptorReading::Unknown => snapshot.process.open_descriptors is None,
            }
        },
{
}

/// A snapshot has the live tasks and the workers of the runtime as they were
/// read; without a runtime the threads of the process, none where they are
/// unknown, and the processors, one where they are unknown.
pub proof fn law_runtime_is_as_read(snapshot: Snapshot, state: CollectorState, reading: Reading)
    requires
        collect::shows_reading(snapshot, state, reading),
    ensures
        match reading.runtime {
            RuntimeReading::Tokio { tasks, workers } => {
                &&& snapshot.runtime.goroutines == tasks
                &&& workers <= 0x7fff_ffff ==> snapshot.runtime.workers == workers
                &&& workers > 0x7fff_ffff ==> snapshot.runtime.workers == 0x7fff_ffff
            },
            RuntimeReading::Threads { threads, parallelism } => {
                &&& threads matches Some(count) ==> snapshot.runtime.goroutines == count
                &&& threads is None ==> snapshot.runtime.goroutines == 0
                &&& parallelism matches Some(count) ==> count <= 0x7fff_ffff
                    ==> snapshot.runtime.workers == count
                &&& parallelism is None ==> snapshot.runtime.workers == 1
            },
        },
{
}

/// The network rates of a snapshot are the bytes received and sent since the
/// reading before, each over the time between the two. There are none where no
/// time passed or a counter went back.
pub proof fn law_network_rates_are_differences(
    snapshot: Snapshot,
    state: CollectorState,
    first: Reading,
    second: Reading,
)
    requires
        collect::shows_reading(snapshot, collect::collected(state, first), second),
    ensures
        ({
            let told = second.now > first.now && second.system.received >= first.system.received
                && second.system.sent >= first.system.sent;
            if told {
                &&& snapshot.system.network_receive_bps matches Some(rate) && rate.bytes
                    == second.system.received - first.system.received && rate.nanos == second.now
                    - first.now
                &&& snapshot.system.network_send_bps matches Some(rate) && rate.bytes
                    == second.system.sent - first.system.sent && rate.nanos == second.now
                    - first.now
            } else {
                &&& snapshot.system.network_receive_bps is None
                &&& snapshot.system.network_send_bps is None
            }
        }),
{
}

/// Whether a directory lies below a mount point, both given by their components.
pub open spec fn lies_below(directory: Seq<Seq<u8>>, mount: Seq<Seq<u8>>) -> bool {
    &&& mount.len() <= directory.len()
    &&& forall|c: int| 0 <= c < mount.len() ==> #[trigger] mount[c] == directory[c]
}

proof fn lemma_lies_below(directory: Seq<Seq<u8>>, mount: Seq<Seq<u8>>)
    ensures
        readings::is_on_mount(directory, mount) == lies_below(directory, mount),
{
    if readings::is_on_mount(directory, mount) {
        assert forall|c: int| 0 <= c < mount.len() implies #[trigger] mount[c] == directory[c] by {
            assert(directory.take(mount.len() as int)[c] == directory[c]);
        }
    }
    if lies_below(directory, mount) {
        assert(directory.take(mount.len() as int) =~= mount);
    }
}

/// Whether the disk is read for a snapshot: it was not read before, or thirty
/// seconds ago or earlier.
pub open spec fn disk_is_read(state: CollectorState, reading: Reading) -> bool {
    state.disk_at matches Some(at) ==> reading.now >= at + 30_000_000_000
}

/// Where the disk is read, a snapshot has the figures of the file system that the
/// application runs on, the one with the longest mount point above its
/// directory and the last of several such: all bytes, the available ones as free, the others as used, the
/// share of the used, and the name of the file system.
pub proof fn law_disk_is_as_read(
    snapshot: Snapshot,
    state: CollectorState,
    reading: Reading,
    directory: Seq<Seq<u8>>,
    mounts: Seq<MountState>,
    i: int,
)
    requires
        collect::shows_reading(snapshot, state, reading),
        disk_is_read(state, reading),
        readings::path_view(reading.disk_root) == Some(directory),
        mounts == readings::mount_views(reading.mounts@),
        0 <= i < mounts.len(),
        lies_below(directory, mounts[i].components),
        forall|j: int|
            0 <= j < mounts.len() && j != i && lies_below(
                directory,
                (#[trigger] mounts[j]).components,
            ) ==> mounts[j].length < mounts[i].length || (mounts[j].length == mounts[i].length && j
                < i),
    ensures
        ({
            let system = snapshot.system;
            let mount = mounts[i];
            if mount.total > 0 {
                &&& system.disk_total_bytes == Some(mount.total)
                &&& system.disk_free_bytes == Some(mount.available)
                &&& system.disk_used_bytes matches Some(used) && used == (if mount.total
                    >= mount.available {
                    mount.total - mount.available
                } else {
                    0
                })
                &&& system.disk_used_percent matches Some(share) && Some(share.numerator)
                    == system.disk_used_bytes && Some(share.denominator)
                    == system.disk_total_bytes
                &&& mount.file_system.len() > 0 ==> (system.disk_fstype matches Some(name) && name@
                    == mount.file_system)
                &&& mount.file_system.len() == 0 ==> system.disk_fstype is None
            } else {
                &&& system.disk_total_bytes is None
                &&& system.disk_free_bytes is None
                &&& system.disk_used_bytes is None
                &&& system.disk_used_percent is None
                &&& system.disk_fstype is None
            }
        }),
{
    assert forall|j: int|
        0 <= j < mounts.len() && readings::is_on_mount(directory, (#[trigger] mounts[j]).components) implies
        mounts[j].length <= mounts[i].length && (mounts[j].length == mounts[i].length ==> j
        <= i) by {
        lemma_lies_below(directory, mounts[j].components);
    }
    lemma_lies_below(directory, mounts[i].components);
    assert(readings::is_mount_of(mounts, i, directory));
    readings::lemma_mount_is_one(
        mounts,
        i,
        choose|k: int| readings::is_mount_of(mounts, k, directory),
        directory,
    );
}

/// Where the disk is read and no mount point lies above the directory of the
/// application, a snapshot has no disk figures.
pub proof fn law_disk_is_unknown_off_the_mounts(
    snapshot: Snapshot,
    state: CollectorState,
    reading: Reading,
)
    requires
        collect::shows_reading(snapshot, state, reading),
        disk_is_read(state, reading),
        readings::path_view(reading.disk_root) matches Some(directory) ==> forall|j: int|
            0 <= j < reading.mounts@.len() ==> !lies_below(
                directory,
                (#[trigger] readings::mount_views(reading.mounts@)[j]).components,
            ),
    ensures
        snapshot.system.disk_total_bytes is None,
        snapshot.system.disk_free_bytes is None,
        snapshot.system.disk_used_bytes is None,
        snapshot.system.disk_used_percent is None,
        snapshot.system.disk_fstype is None,
{
    let mounts = readings::mount_views(reading.mounts@);
    if let Some(directory) = readings::path_view(reading.disk_root) {
        assert forall|k: int| !readings::is_mount_of(mounts, k, directory) by {
            if 0 <= k < mounts.len() {
                lemma_lies_below(directory, mounts[k].components);
            }
        }
    }
}

/// For thirty seconds after the disk was read, snapshots keep its figures,
/// whatever the mounts are.
pub proof fn law_disk_figures_stay(
    before: Snapshot,
    after: Snapshot,
    state: CollectorState,
    first: Reading,
    second: Reading,
)
    requires
        collect::shows_reading(before, state, first),
        collect::shows_reading(after, collect::collected(state, first), second),
        disk_is_read(state, first),
        second.now < first.mounts_at + 30_000_000_000,
    ensures
        after.system.disk_total_bytes == before.system.disk_total_bytes,
        after.system.disk_free_bytes == before.system.disk_free_bytes,
        after.system.disk_used_bytes == before.system.disk_used_bytes,
        after.system.disk_used_percent == before.system.disk_used_percent,
        after.system.disk_fstype is Some <==> before.system.disk_fstype is Some,
        after.system.disk_fstype is Some ==> after.system.disk_fstype->0@
            == before.system.disk_fstype->0@,
{
}

proof fn lemma_names_listed(
    found: bool,
    threads: Option<usize>,
    descriptors: DescriptorReading,
    no_memory: bool,
    no_disk: bool,
    no_network: bool,
)
    ensures
        ({
            let errors = collect::process_errors(found, threads, descriptors) + (collect::named_if(
                no_memory,
                "system.memory"@,
            ) + collect::named_if(no_disk, "system.disk"@) + collect::named_if(
                no_network,
                "system.network"@,
            ));
            &&& errors.contains("process.cpu"@) <==> !found
            &&& errors.contains("process.memory"@) <==> !found
            &&& errors.contains("process.threads"@) <==> !found || threads is None
            &&& errors.contains("process.descriptors"@) <==> !found || descriptors is Unknown
            &&& errors.contains("system.memory"@) <==> no_memory
            &&& errors.contains("system.disk"@) <==> no_disk
            &&& errors.contains("system.network"@) <==> no_network
            &&& errors.len() == (if !found {
                4int
            } else {
                stats_laws::one_if(threads is None) + stats_laws::one_if(descriptors is Unknown)
            }) + stats_laws::one_if(no_memory) + stats_laws::one_if(no_disk) + stats_laws::one_if(
                no_network,
            )
        }),
{
    reveal_strlit("process.cpu");
    reveal_strlit("process.memory");
    reveal_strlit("process.threads");
    reveal_strlit("process.descriptors");
    reveal_strlit("system.memory");
    reveal_strlit("system.disk");
    reveal_strlit("system.network");
    let cpu = "process.cpu"@;
    let memory = "process.memory"@;
    let listed_threads = "process.threads"@;
    let listed_descriptors = "process.descriptors"@;
    let system_memory = "system.memory"@;
    let disk = "system.disk"@;
    let network = "system.network"@;
    assert(cpu.len() == 11 && disk.len() == 11 && cpu[0] == 'p' && disk[0] == 's');
    assert(memory.len() == 14 && network.len() == 14 && memory[0] == 'p' && network[0] == 's');
    assert(listed_threads.len() == 15 && listed_descriptors.len() == 19 && system_memory.len()
        == 13);
    let a = collect::process_errors(found, threads, descriptors);
    let b = collect::named_if(no_memory, system_memory);
    let c = collect::named_if(no_disk, disk);
    let d = collect::named_if(no_network, network);
    let errors = a + (b + c + d);
    let n = a.len() as int;
    if !found {
        assert(errors[0] == cpu && errors[1] == memory && errors[2] == listed_threads && errors[3]
            == listed_descriptors);
    } else {
        if threads is None {
            assert(errors[0] == listed_threads);
        }
        if descriptors is Unknown {
            assert(errors[n - 1] == listed_descriptors);
        }
    }
    if no_memory {
        assert(errors[n] == system_memory);
    }
    if no_disk {
        assert(errors[n + b.len()] == disk);
    }
    if no_network {
        assert(errors[n + b.len() + c.len()] == network);
    }
}

/// A metric is named among the errors of a snapshot exactly where it could not be
/// read, once and nothing else beside it, and the snapshot is partial exactly where
/// one is named.
pub proof fn law_errors_name_what_is_missing(
    snapshot: Snapshot,
    state: CollectorState,
    reading: Reading,
)
    requires
        collect::shows_reading(snapshot, state, reading),
    ensures
        ({
            let errors = text::texts(snapshot.collection.errors@);
            &&& snapshot.collection.partial <==> errors.len() > 0
            &&& errors.contains("process.cpu"@) <==> reading.process is None
            &&& errors.contains("process.memory"@) <==> reading.process is None
            &&& errors.contains("process.threads"@) <==> reading.process is None
                || reading.threads is None
            &&& errors.contains("process.descriptors"@) <==> reading.process is None
                || reading.descriptors is Unknown
            &&& errors.contains("system.memory"@) <==> reading.system.memory_total == 0
            &&& errors.contains("system.disk"@) <==> snapshot.system.disk_total_bytes is None
            &&& errors.contains("system.network"@) <==> reading.system.interfaces == 0
            &&& errors.len() == (if reading.process is None {
                4int
            } else {
                stats_laws::one_if(reading.threads is None) + stats_laws::one_if(
                    reading.descriptors is Unknown,
                )
            }) + stats_laws::one_if(reading.system.memory_total == 0) + stats_laws::one_if(
                snapshot.system.disk_total_bytes is None,
            ) + stats_laws::one_if(reading.system.interfaces == 0)
        }),
{
    let no_disk = collect::collected(state, reading).disk_cache is None;
    assert(no_disk <==> snapshot.system.disk_total_bytes is None);
    lemma_names_listed(
        reading.process is Some,
        reading.threads,
        reading.descriptors,
        reading.system.memory_total == 0,
        no_disk,
        reading.system.interfaces == 0,
    );
}

/// The smaller of two numbers.
pub open spec fn least(a: int, b: int) -> int {
    if a <= b {
        a
    } else {
        b
    }
}

/// A difference, or zero where it would be negative.
pub open spec fn over(a: int, b: int) -> int {
    if a >= b {
        a - b
    } else {
        0
    }
}

/// The heap figures of a snapshot by allocator. With glibc the heap is the arena
/// and the mapped blocks, in use are the allocated blocks and idle the free ones;
/// released is at most what is idle, and what exceeds the resident memory. In the
/// default zone of macOS idle is what is not in use. With jemalloc the heap is
/// what is mapped and what is retained, and released is what is retained and what
/// of the mapped is not resident. Sums are those of 64-bit counts.
pub proof fn law_heap_is_as_read(snapshot: Snapshot, state: CollectorState, reading: Reading)
    requires
        collect::shows_reading(snapshot, state, reading),
    ensures
        ({
            let told = snapshot.runtime;
            match reading.heap {
                HeapReading::Glibc { arena, hblkhd, uordblks, fordblks, resident_anonymous } => {
                    arena + hblkhd <= usize::MAX ==> {
                        &&& told.heap_alloc_bytes == uordblks
                        &&& told.heap_inuse_bytes == uordblks
                        &&& told.heap_sys_bytes == arena + hblkhd
                        &&& told.heap_idle_bytes == least(fordblks as int, arena + hblkhd)
                        &&& resident_anonymous is None ==> told.heap_released_bytes == 0
                        &&& resident_anonymous matches Some(resident) ==> told.heap_released_bytes
                            == least(over(arena + hblkhd, resident as int), fordblks as int)
                    }
                },
                HeapReading::Zone { size_in_use, size_allocated } => {
                    &&& told.heap_alloc_bytes == size_in_use
                    &&& told.heap_inuse_bytes == size_in_use
                    &&& told.heap_sys_bytes == size_allocated
                    &&& told.heap_idle_bytes == over(size_allocated as int, size_in_use as int)
                    &&& told.heap_released_bytes == 0
                },
                HeapReading::Jemalloc { allocated, active, mapped, retained, resident } => {
                    mapped + retained <= u64::MAX ==> {
                        &&& told.heap_alloc_bytes == allocated
                        &&& told.heap_inuse_bytes == active
                        &&& told.heap_sys_bytes == mapped + retained
                        &&& told.heap_idle_bytes == over(mapped + retained, active as int)
                        &&& told.heap_released_bytes == retained + over(
                            mapped as int,
                            resident as int,
                        )
                    }
                },
                HeapReading::Unknown => {
                    &&& told.heap_alloc_bytes == 0
                    &&& told.heap_inuse_bytes == 0
                    &&& told.heap_sys_bytes == 0
                    &&& told.heap_idle_bytes == 0
                    &&& told.heap_released_bytes == 0
                },
            }
        }),
{
}

proof fn lemma_number(digits: Seq<char>)
    requires
        forall|i: int| 0 <= i < digits.len() ==> '0' <= #[trigger] digits[i] <= '9',
    ensures
        heap::number_of(digits) == dashboard_laws::number_in(digits),
    decreases digits.len(),
{
    if digits.len() > 0 {
        lemma_number(digits.drop_last());
    }
}

proof fn lemma_first_line(line: Seq<char>, rest: Seq<char>)
    requires
        forall|i: int| 0 <= i < line.len() ==> #[trigger] line[i] != '\n',
    ensures
        text::pieces(line + seq!['\n'] + rest, '\n') == seq![line] + text::pieces(rest, '\n'),
        text::pieces(line, '\n') == seq![line],
{
    let end = seq!['\n'];
    let whole = line + end + rest;
    assert(end[0] == '\n');
    assert forall|i: int| 0 <= i < line.len() implies !end.contains(#[trigger] whole[i]) by {
        assert(whole[i] == line[i]);
    }
    assert(whole[line.len() as int] == '\n');
    assert(end.contains('\n'));
    text::lemma_first_of_is(whole, end, line.len() as int);
    assert(whole.take(line.len() as int) =~= line);
    assert(whole.skip(line.len() as int + 1) =~= rest);
    text::lemma_pieces_none(line, '\n');
}

/// The resident anonymous memory of a process is the number of kilobytes in the
/// line of its status that begins with `RssAnon:`. Lines before that are passed
/// over.
pub proof fn law_resident_memory_is_read(line: Seq<char>, digits: Seq<char>, rest: Seq<char>)
    requires
        forall|i: int| 0 <= i < line.len() ==> #[trigger] line[i] != '\n',
        line.len() > 0,
        line[0] != 'R',
        digits.len() > 0,
        forall|i: int| 0 <= i < digits.len() ==> '0' <= #[trigger] digits[i] <= '9',
    ensures
        ({
            let told = "RssAnon:"@ + seq!['\t'] + digits + seq![' ', 'k', 'B'] + seq!['\n'] + rest;
            &&& heap::resident_anonymous(told) matches Some(bytes) && bytes == 1024
                * dashboard_laws::number_in(digits)
            &&& heap::resident_anonymous(line + seq!['\n'] + told) == heap::resident_anonymous(told)
            &&& heap::resident_anonymous(line) is None
        }),
{
    reveal_strlit("RssAnon:");
    reveal_strlit("kB");
    let label = "RssAnon:"@;
    assert(label =~= seq!['R', 's', 's', 'A', 'n', 'o', 'n', ':']);
    let amount = seq!['\t'] + digits + seq![' ', 'k', 'B'];
    let first = label + amount;
    let told = label + seq!['\t'] + digits + seq![' ', 'k', 'B'] + seq!['\n'] + rest;
    assert(told =~= first + seq!['\n'] + rest);
    assert forall|i: int| 0 <= i < first.len() implies #[trigger] first[i] != '\n' by {
        if i >= 9 && i < 9 + digits.len() {
            assert(first[i] == digits[i - 9]);
        }
    }
    lemma_first_line(first, rest);
    let lines = text::pieces(told, '\n');
    assert(lines[0] == first);
    assert(first.take(8) =~= label);
    assert(first.skip(8) =~= amount);
    let trimmed = digits + seq![' ', 'k', 'B'];
    assert(amount.skip(1) =~= trimmed);
    assert(trimmed[0] == digits[0]);
    reveal_with_fuel(text::trim_start, 2);
    assert(text::trim_start(amount) == trimmed);
    assert(trimmed.last() == 'B');
    assert(text::trimmed(amount) == trimmed);
    let space = seq![' '];
    assert(space[0] == ' ');
    assert forall|i: int| 0 <= i < digits.len() implies !space.contains(#[trigger] trimmed[i]) by {
        assert(trimmed[i] == digits[i]);
    }
    assert(trimmed[digits.len() as int] == ' ');
    assert(space.contains(' '));
    text::lemma_first_of_is(trimmed, space, digits.len() as int);
    assert(trimmed.take(digits.len() as int) =~= digits);
    let unit = trimmed.skip(digits.len() as int + 1);
    assert(unit =~= seq!['k', 'B']);
    assert("kB"@ =~= seq!['k', 'B']);
    assert(text::trimmed(unit) == unit);
    lemma_number(digits);
    lemma_first_line(line, told);
    let more = text::pieces(line + seq!['\n'] + told, '\n');
    assert(more[0] == line);
    assert(more.skip(1) =~= lines);
    if text::begins(line, label) {
        assert(line.take(8)[0] == line[0]);
    }
    reveal_with_fuel(heap::labelled, 2);
    assert(seq![line].skip(1) =~= Seq::<Seq<char>>::empty());
}

/// What all network interfaces received and sent is the sum over them, what one
/// received with what the others received and what it sent with what they sent.
pub proof fn law_interfaces_are_added_up(counters: Seq<(u64, u64)>, received: u64, sent: u64)
    ensures
        sums::total(readings::received_counts(Seq::empty())) == 0,
        sums::total(readings::sent_counts(Seq::empty())) == 0,
        sums::total(readings::received_counts(counters.push((received, sent)))) == sums::total(
            readings::received_counts(counters),
        ) + received,
        sums::total(readings::sent_counts(counters.push((received, sent)))) == sums::total(
            readings::sent_counts(counters),
        ) + sent,
{
    let more = counters.push((received, sent));
    assert(readings::received_counts(more).drop_last() =~= readings::received_counts(counters));
    assert(readings::sent_counts(more).drop_last() =~= readings::sent_counts(counters));
}

} // verus!
