use vstd::prelude::*;
use vstd::string::StringExecFns;

use crate::error::BootError;
use crate::manager::{
    MemoryManager, MemoryRegion, MemoryRegionType, MemoryStats, MEMORY_END, MEMORY_START,
    PAGE_SIZE,
};
use crate::text::{append_dec, spec_dec_text};
use crate::window::MemoryWindow;

verus! {

/// A byte count rendered for display: whole mebibytes, else whole
/// kibibytes, else bytes.
pub open spec fn spec_size_text(bytes: int) -> Seq<char> {
    if bytes >= 1048576 {
        spec_dec_text(bytes / 1048576) + "MB"@
    } else if bytes >= 1024 {
        spec_dec_text(bytes / 1024) + "KB"@
    } else {
        spec_dec_text(bytes) + "B"@
    }
}

/// The text `init` reports after setting the manager up.
pub open spec fn spec_init_text(total: int, free: int) -> Seq<char> {
    "Memory initialized: "@ + spec_size_text(total) + " total, "@ + spec_size_text(free)
        + " available\n"@
}

/// The text `print_memory_stats` renders.
pub open spec fn spec_stats_text(total: int, used: int, free: int) -> Seq<char> {
    "Memory stats:\n total: "@ + spec_size_text(total) + "\n used: "@ + spec_size_text(used)
        + "\n Free: "@ + spec_size_text(free) + "\n"@
}

/// Render a byte count as display text.
fn append_size(s: &mut String, bytes: usize)
    ensures
        final(s)@ == old(s)@ + spec_size_text(bytes as int),
{
    if bytes >= 1048576 {
        append_dec(s, (bytes / 1048576) as u64);
        s.append("MB");
    } else if bytes >= 1024 {
        append_dec(s, (bytes / 1024) as u64);
        s.append("KB");
    } else {
        append_dec(s, bytes as u64);
        s.append("B");
    }
}

/// Set up the memory manager over the compiled-in heap window and render
/// the line reporting its totals.
pub fn init() -> (r: (MemoryManager, String))
    ensures
        r.0.wf(),
        r.0.heap_start == MEMORY_START,
        r.0.heap_current == MEMORY_START,
        r.0.heap_end == MEMORY_END,
        r.0.allocated_bytes == 0,
        r.0.spec_regions() =~= seq![
            MemoryRegion {
                start: MEMORY_START,
                size: (MEMORY_END - MEMORY_START) as usize,
                region_type: MemoryRegionType::Available,
            },
            MemoryRegion {
                start: 0x7C00,
                size: 0x98400,
                region_type: MemoryRegionType::Bootloader,
            },
        ],
        r.1@ == spec_init_text(
            MEMORY_END - MEMORY_START,
            MEMORY_END - MEMORY_START,
        ),
{
    let manager = MemoryManager::new();
    let stats = manager.get_stats();
    let mut s = String::new();
    s.append("Memory initialized: ");
    append_size(&mut s, stats.total_memory);
    s.append(" total, ");
    append_size(&mut s, stats.free_memory);
    s.append(" available\n");
    proof {
        assert(s@ =~= spec_init_text(
            MEMORY_END - MEMORY_START,
            MEMORY_END - MEMORY_START,
        ));
    }
    (manager, s)
}

/// Allocate `count` pages through the manager, zero filled via `win`.
pub fn allocate_pages(m: &mut MemoryManager, win: &mut MemoryWindow, count: usize) -> (r: Result<
    usize,
    BootError,
>)
    requires
        old(m).wf(),
        old(win).wf(),
        old(m).spec_window_covers_heap(*old(win)),
    ensures
        final(m).wf(),
        final(win).wf(),
        old(m).spec_window_covers_heap(*final(win)),
        count * PAGE_SIZE > usize::MAX ==> r == Err::<usize, BootError>(
            BootError::ResourceExhausted,
        ) && *final(m) == *old(m) && *final(win) == *old(win),
        count * PAGE_SIZE <= usize::MAX ==> match r {
            Err(e) => {
                &&& e == BootError::ResourceExhausted
                &&& *final(m) == *old(m)
                &&& *final(win) == *old(win)
                &&& old(m).spec_allocate_aligned((count * PAGE_SIZE) as usize, PAGE_SIZE) is None
            },
            Ok(addr) => {
                &&& old(m).spec_allocate_aligned((count * PAGE_SIZE) as usize, PAGE_SIZE) == Some(
                    (addr, *final(m)),
                )
                &&& MemoryManager::spec_zero_filled(
                    *old(win),
                    *final(win),
                    addr as int,
                    (count * PAGE_SIZE) as int,
                )
            },
        },
{
    match m.allocate_pages(count, win) {
        Some(addr) => Ok(addr),
        None => Err(BootError::ResourceExhausted),
    }
}

/// The manager's counters.
pub fn get_memory_stats(m: &MemoryManager) -> (s: MemoryStats)
    requires
        m.wf(),
    ensures
        s.total_memory == m.heap_end - m.heap_start,
        s.used_memory == m.allocated_bytes,
        s.free_memory == m.heap_end - m.heap_current,
        s.heap_start == m.heap_start,
        s.heap_current == m.heap_current,
        s.heap_end == m.heap_end,
{
    m.get_stats()
}

/// Render the manager's counters as display text.
pub fn print_memory_stats(m: &MemoryManager) -> (r: String)
    requires
        m.wf(),
    ensures
        r@ == spec_stats_text(
            m.heap_end - m.heap_start,
            m.allocated_bytes as int,
            m.heap_end - m.heap_current,
        ),
{
    let stats = m.get_stats();
    let mut s = String::new();
    s.append("Memory stats:\n total: ");
    append_size(&mut s, stats.total_memory);
    s.append("\n used: ");
    append_size(&mut s, stats.used_memory);
    s.append("\n Free: ");
    append_size(&mut s, stats.free_memory);
    s.append("\n");
    proof {
        assert(s@ =~= spec_stats_text(
            m.heap_end - m.heap_start,
            m.allocated_bytes as int,
            m.heap_end - m.heap_current,
        ));
    }
    s
}

/// Reserve `[start, start + size)` for the kernel and record it in the
/// catalogue as kernel-owned.
pub fn reserve_for_kernel(m: &mut MemoryManager, start: usize, size: usize) -> (r: Result<
    (),
    BootError,
>)
    requires
        old(m).wf(),
    ensures
        final(m).wf(),
        r is Ok <==> old(m).spec_reserve_ok(start, size),
        r is Err ==> *final(m) == *old(m) && r == Err::<(), BootError>(
            BootError::ResourceExhausted,
        ),
        r is Ok ==> exists|mid: MemoryManager|
            #[trigger] old(m).spec_reserved(mid, start, size) && mid.spec_region_added(
                *final(m),
                MemoryRegion { start, size, region_type: MemoryRegionType::Kernel },
            ),
{
    m.reserve_region(start, size)?;
    let ghost mid = *m;
    m.mark_kernel_loaded(start, size);
    proof {
        assert(old(m).spec_reserved(mid, start, size));
    }
    Ok(())
}

/// Offer a location for a kernel of `kernel_size` bytes.
pub fn find_kernel_address(m: &MemoryManager, kernel_size: usize) -> (r: Option<usize>)
    requires
        m.wf(),
    ensures
        r == m.spec_find_kernel_location(kernel_size),
{
    m.find_kernel_location(kernel_size)
}

} // verus!