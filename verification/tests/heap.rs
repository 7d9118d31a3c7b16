use axum_sentinel_monitor::heap::{
    allocator_stats, resident_anonymous_bytes, AllocatorStats, HeapReading,
};

fn glibc(arena: usize, hblkhd: usize, fordblks: usize, resident: Option<u64>) -> AllocatorStats {
    allocator_stats(HeapReading::Glibc {
        arena,
        hblkhd,
        uordblks: 500,
        fordblks,
        resident_anonymous: resident,
    })
}

#[test]
fn glibc_figures() {
    let heap = glibc(1_000, 200, 600, Some(900));
    assert_eq!(heap.alloc_bytes, 500);
    assert_eq!(heap.inuse_bytes, 500);
    assert_eq!(heap.sys_bytes, 1_200);
    assert_eq!(heap.idle_bytes, 600);
    assert_eq!(heap.released_bytes, 300);
    assert_eq!(heap.sys_bytes - heap.released_bytes, 900);
}

#[test]
fn glibc_parts_are_nested() {
    // Idle bytes bound what was released.
    assert_eq!(glibc(1_000, 200, 100, Some(10)).released_bytes, 100);
    // More is resident than was obtained: stacks and other mappings count too.
    assert_eq!(glibc(1_000, 200, 600, Some(5_000)).released_bytes, 0);
    assert_eq!(glibc(1_000, 200, 600, None).released_bytes, 0);
    assert_eq!(glibc(100, 0, 600, Some(0)).idle_bytes, 100);
    assert_eq!(glibc(usize::MAX, 1, 0, None).sys_bytes, usize::MAX as u64);
}

#[test]
fn zone_figures() {
    let heap = allocator_stats(HeapReading::Zone { size_in_use: 30, size_allocated: 100 });
    assert_eq!(
        heap,
        AllocatorStats {
            alloc_bytes: 30,
            inuse_bytes: 30,
            sys_bytes: 100,
            idle_bytes: 70,
            released_bytes: 0,
        }
    );
    let heap = allocator_stats(HeapReading::Zone { size_in_use: 130, size_allocated: 100 });
    assert_eq!(heap.idle_bytes, 0);
}

#[test]
fn jemalloc_figures() {
    let heap = allocator_stats(HeapReading::Jemalloc {
        allocated: 40,
        active: 50,
        mapped: 100,
        retained: 25,
        resident: 70,
    });
    assert_eq!(heap.alloc_bytes, 40);
    assert_eq!(heap.inuse_bytes, 50);
    assert_eq!(heap.sys_bytes, 125);
    assert_eq!(heap.released_bytes, 55);
    assert_eq!(heap.idle_bytes, 75);
    assert_eq!(heap.sys_bytes - heap.released_bytes, 70);
}

#[test]
fn other_allocators_report_zeros() {
    assert_eq!(allocator_stats(HeapReading::Unknown), AllocatorStats::default());
}

#[test]
fn resident_anonymous_memory_is_read() {
    let status = "Name:\tserver\nVmRSS:\t  900 kB\nRssAnon:\t     612 kB\nRssFile:\t 5 kB\n";
    assert_eq!(resident_anonymous_bytes(status), Some(612 * 1024));
    assert_eq!(resident_anonymous_bytes("RssAnon: 0 kB"), Some(0));
    assert_eq!(resident_anonymous_bytes("VmRSS:\t 900 kB\n"), None);
    assert_eq!(resident_anonymous_bytes("RssAnon:\t 12 MB\n"), None);
    assert_eq!(resident_anonymous_bytes("RssAnon:\t x kB\n"), None);
    assert_eq!(resident_anonymous_bytes("RssAnon:\t kB\n"), None);
    assert_eq!(resident_anonymous_bytes("RssAnon:\t 99999999999999999999 kB\n"), None);
    assert_eq!(resident_anonymous_bytes("RssAnon:\t 18014398509481984 kB\n"), None);
    assert_eq!(
        resident_anonymous_bytes("RssAnon:\t 18014398509481983 kB\n"),
        Some(18_014_398_509_481_983 * 1024)
    );
    assert_eq!(resident_anonymous_bytes(""), None);
}
