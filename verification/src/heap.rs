//! Heap figures from what an allocator tells of itself.

use vstd::prelude::*;

use crate::text;
use crate::text::{chars_of, split, split_once, starts_with, trim};

verus! {

/// What an allocator tells of itself, in bytes.
#[derive(Clone, Copy, Debug, PartialEq, Eq, Structural)]
pub enum HeapReading {
    /// Figures of glibc, and the anonymous memory of the process that is
    /// resident, where it is known.
    Glibc {
        arena: usize,
        hblkhd: usize,
        uordblks: usize,
        fordblks: usize,
        resident_anonymous: Option<u64>,
    },
    /// Figures of the default zone of macOS.
    Zone { size_in_use: usize, size_allocated: usize },
    /// Figures of jemalloc.
    Jemalloc { allocated: u64, active: u64, mapped: u64, retained: u64, resident: u64 },
    /// An allocator that tells nothing.
    Unknown,
}

/// Heap figures.
#[derive(Clone, Copy, Debug, PartialEq, Eq, Structural)]
pub struct AllocatorStats {
    pub alloc_bytes: u64,
    pub inuse_bytes: u64,
    pub sys_bytes: u64,
    pub idle_bytes: u64,
    pub released_bytes: u64,
}

impl Default for AllocatorStats {
    fn default() -> (stats: Self)
        ensures
            stats == (AllocatorStats {
                alloc_bytes: 0,
                inuse_bytes: 0,
                sys_bytes: 0,
                idle_bytes: 0,
                released_bytes: 0,
            }),
    {
        AllocatorStats {
            alloc_bytes: 0,
            inuse_bytes: 0,
            sys_bytes: 0,
            idle_bytes: 0,
            released_bytes: 0,
        }
    }
}

/// A difference of counters, not below zero.
pub open spec fn minus(a: u64, b: u64) -> u64 {
    if a >= b {
        (a - b) as u64
    } else {
        0
    }
}

/// A sum of counters, not above the largest.
pub open spec fn summed(a: u64, b: u64) -> u64 {
    if a + b <= u64::MAX {
        (a + b) as u64
    } else {
        u64::MAX
    }
}

pub open spec fn smaller(a: u64, b: u64) -> u64 {
    if a <= b {
        a
    } else {
        b
    }
}

/// What glibc obtained from the system: the arena and the mapped blocks.
pub open spec fn glibc_sys(arena: usize, hblkhd: usize) -> u64 {
    if arena + hblkhd <= usize::MAX {
        (arena + hblkhd) as u64
    } else {
        usize::MAX as u64
    }
}

/// The heap figures of an allocator.
pub open spec fn heap_of(reading: HeapReading) -> AllocatorStats {
    match reading {
        HeapReading::Glibc { arena, hblkhd, uordblks, fordblks, resident_anonymous } => {
            let sys = glibc_sys(arena, hblkhd);
            let idle = smaller(fordblks as u64, sys);
            AllocatorStats {
                alloc_bytes: uordblks as u64,
                inuse_bytes: uordblks as u64,
                sys_bytes: sys,
                idle_bytes: idle,
                released_bytes: match resident_anonymous {
                    Some(bytes) => smaller(minus(sys, bytes), idle),
                    None => 0,
                },
            }
        },
        HeapReading::Zone { size_in_use, size_allocated } => AllocatorStats {
            alloc_bytes: size_in_use as u64,
            inuse_bytes: size_in_use as u64,
            sys_bytes: size_allocated as u64,
            idle_bytes: minus(size_allocated as u64, size_in_use as u64),
            released_bytes: 0,
        },
        HeapReading::Jemalloc { allocated, active, mapped, retained, resident } => {
            let sys = summed(mapped, retained);
            AllocatorStats {
                alloc_bytes: allocated,
                inuse_bytes: active,
                sys_bytes: sys,
                idle_bytes: minus(sys, active),
                released_bytes: summed(retained, minus(mapped, resident)),
            }
        },
        HeapReading::Unknown => AllocatorStats {
            alloc_bytes: 0,
            inuse_bytes: 0,
            sys_bytes: 0,
            idle_bytes: 0,
            released_bytes: 0,
        },
    }
}

fn min_of(a: u64, b: u64) -> (least: u64)
    ensures
        least == smaller(a, b),
{
    if a <= b {
        a
    } else {
        b
    }
}

/// Computes the heap figures of an allocator.
pub fn allocator_stats(reading: HeapReading) -> (heap: AllocatorStats)
    ensures
        heap == heap_of(reading),
{
    match reading {
        HeapReading::Glibc { arena, hblkhd, uordblks, fordblks, resident_anonymous } => {
            let sys: u64 = arena.saturating_add(hblkhd) as u64;
            let idle = min_of(fordblks as u64, sys);
            let released: u64 = match resident_anonymous {
                Some(bytes) => min_of(sys.saturating_sub(bytes), idle),
                None => 0,
            };
            AllocatorStats {
                alloc_bytes: uordblks as u64,
                inuse_bytes: uordblks as u64,
                sys_bytes: sys,
                idle_bytes: idle,
                released_bytes: released,
            }
        },
        HeapReading::Zone { size_in_use, size_allocated } => AllocatorStats {
            alloc_bytes: size_in_use as u64,
            inuse_bytes: size_in_use as u64,
            sys_bytes: size_allocated as u64,
            idle_bytes: size_allocated.saturating_sub(size_in_use) as u64,
            released_bytes: 0,
        },
        HeapReading::Jemalloc { allocated, active, mapped, retained, resident } => {
            let sys: u64 = mapped.saturating_add(retained);
            AllocatorStats {
                alloc_bytes: allocated,
                inuse_bytes: active,
                sys_bytes: sys,
                idle_bytes: sys.saturating_sub(active),
                released_bytes: retained.saturating_add(mapped.saturating_sub(resident)),
            }
        },
        HeapReading::Unknown => AllocatorStats::default(),
    }
}

/// What was released is part of what is idle, and that of what was obtained from
/// the system.
pub proof fn law_heap_parts_are_nested(reading: HeapReading)
    requires
        !(reading is Jemalloc),
    ensures
        heap_of(reading).released_bytes <= heap_of(reading).idle_bytes,
        heap_of(reading).idle_bytes <= heap_of(reading).sys_bytes,
{
}

/// With glibc what was not released is at least what is resident: the released
/// bytes are a lower bound.
pub proof fn law_glibc_keeps_what_is_resident(
    arena: usize,
    hblkhd: usize,
    uordblks: usize,
    fordblks: usize,
    resident: u64,
)
    requires
        resident <= glibc_sys(arena, hblkhd),
    ensures
        ({
            let heap = heap_of(
                HeapReading::Glibc {
                    arena,
                    hblkhd,
                    uordblks,
                    fordblks,
                    resident_anonymous: Some(resident),
                },
            );
            heap.sys_bytes - heap.released_bytes >= resident
        }),
{
}

/// With jemalloc what was not released is exactly what is resident.
pub proof fn law_jemalloc_keeps_what_is_resident(
    allocated: u64,
    active: u64,
    mapped: u64,
    retained: u64,
    resident: u64,
)
    requires
        resident <= mapped,
        mapped + retained <= u64::MAX,
    ensures
        ({
            let heap = heap_of(
                HeapReading::Jemalloc { allocated, active, mapped, retained, resident },
            );
            heap.sys_bytes - heap.released_bytes == resident
        }),
{
}

/// Whether a text is a decimal number.
pub open spec fn is_number(s: Seq<char>) -> bool {
    s.len() > 0 && forall|i: int| 0 <= i < s.len() ==> '0' <= #[trigger] s[i] <= '9'
}

/// The number that a text of digits stands for.
pub open spec fn number_of(s: Seq<char>) -> nat
    decreases s.len(),
{
    if s.len() == 0 {
        0
    } else {
        10 * number_of(s.drop_last()) + (s.last() as u32 - '0' as u32) as nat
    }
}

/// The first of some lines that begins with a label, without the label.
pub open spec fn labelled(lines: Seq<Seq<char>>, label: Seq<char>) -> Option<Seq<char>>
    decreases lines.len(),
{
    if lines.len() == 0 {
        None
    } else if text::begins(lines[0], label) {
        Some(lines[0].skip(label.len() as int))
    } else {
        labelled(lines.skip(1), label)
    }
}

/// The number of bytes that a text such as `12 kB` stands for.
pub open spec fn bytes_of(amount: Seq<char>) -> Option<nat> {
    match text::split_at_first(text::trimmed(amount), ' ') {
        Some((number, unit)) => if is_number(number) && text::trimmed(unit) == "kB"@ {
            Some(1024 * number_of(number))
        } else {
            None
        },
        None => None,
    }
}

/// The resident anonymous memory that the status of a process tells.
pub open spec fn resident_anonymous(status: Seq<char>) -> Option<nat> {
    match labelled(text::pieces(status, '\n'), "RssAnon:"@) {
        Some(amount) => bytes_of(amount),
        None => None,
    }
}

/// A number where it is a 64-bit count.
pub open spec fn countable(n: Option<nat>) -> Option<u64> {
    match n {
        Some(n) => if n <= u64::MAX {
            Some(n as u64)
        } else {
            None
        },
        None => None,
    }
}

fn parse_number(s: &[char]) -> (number: Option<u64>)
    ensures
        number matches Some(n) ==> is_number(s@) && n == number_of(s@),
        number is None ==> !is_number(s@) || number_of(s@) > u64::MAX,
{
    if s.len() == 0 {
        return None;
    }
    let mut n: u64 = 0;
    let mut i: usize = 0;
    assert(s@.take(0) =~= Seq::<char>::empty());
    while i < s.len()
        invariant
            i <= s@.len(),
            n == number_of(s@.take(i as int)),
            forall|j: int| 0 <= j < i ==> '0' <= #[trigger] s@[j] <= '9',
        decreases s@.len() - i,
    {
        let c: char = s[i];
        if c < '0' || '9' < c {
            return None;
        }
        let digit: u64 = (c as u32 - '0' as u32) as u64;
        proof {
            assert(s@.take(i + 1).drop_last() =~= s@.take(i as int));
            assert(number_of(s@.take(i + 1)) == 10 * n + digit);
        }
        if n > (u64::MAX - digit) / 10 {
            proof {
                lemma_number_grows(s@, i + 1, s@.len() as int);
                assert(s@.take(s@.len() as int) =~= s@);
            }
            return None;
        }
        n = 10 * n + digit;
        i = i + 1;
    }
    assert(s@.take(s@.len() as int) =~= s@);
    Some(n)
}

proof fn lemma_number_grows(s: Seq<char>, i: int, j: int)
    requires
        0 <= i <= j <= s.len(),
    ensures
        number_of(s.take(i)) <= number_of(s.take(j)),
    decreases j - i,
{
    if i < j {
        lemma_number_grows(s, i, j - 1);
        assert(s.take(j).drop_last() =~= s.take(j - 1));
    }
}

fn parse_bytes(amount: &[char]) -> (bytes: Option<u64>)
    ensures
        bytes == countable(bytes_of(amount@)),
{
    match split_once(trim(amount), ' ') {
        Some((number, unit)) => {
            let kilo = chars_of("kB");
            let unit = trim(unit);
            if !text::eq_chars(unit, kilo.as_slice()) {
                return None;
            }
            match parse_number(number) {
                Some(n) => if n <= u64::MAX / 1024 {
                    Some(n * 1024)
                } else {
                    None
                },
                None => None,
            }
        },
        None => None,
    }
}

/// Reads the resident anonymous memory, in bytes, from the status of a process.
pub fn resident_anonymous_bytes(status: &str) -> (bytes: Option<u64>)
    ensures
        bytes == countable(resident_anonymous(status@)),
{
    let chars = chars_of(status);
    let lines = split(chars.as_slice(), '\n');
    let label = chars_of("RssAnon:");
    let ghost all = text::views(lines@);
    let mut i: usize = 0;
    assert(all.skip(0) =~= all);
    while i < lines.len()
        invariant
            i <= lines@.len(),
            all == text::views(lines@),
            all == text::pieces(status@, '\n'),
            label@ == "RssAnon:"@,
            labelled(all, label@) == labelled(all.skip(i as int), label@),
        decreases lines@.len() - i,
    {
        let line = lines[i];
        assert(all[i as int] == line@);
        assert(all.skip(i as int)[0] == line@);
        if starts_with(line, label.as_slice()) {
            let rest = vstd::slice::slice_subrange(line, label.len(), line.len());
            assert(rest@ =~= line@.skip(label@.len() as int));
            return parse_bytes(rest);
        }
        assert(all.skip(i as int).skip(1) =~= all.skip(i + 1));
        i = i + 1;
    }
    None
}

} // verus!
