use rustyboot::error::BootError;
use rustyboot::manager::{MemoryManager, MemoryRegionType};
use rustyboot::memory::{
    allocate_pages, find_kernel_address, get_memory_stats, init, print_memory_stats,
    reserve_for_kernel,
};
use rustyboot::window::MemoryWindow;

const HEAP_START: usize = 0x100000;
const HEAP_END: usize = 0x800000;

fn heap_window() -> MemoryWindow {
    MemoryWindow::new(HEAP_START, HEAP_END - HEAP_START)
}

#[test]
fn a_fresh_manager_covers_the_compiled_in_window() {
    let m = MemoryManager::new();
    let stats = m.get_stats();
    assert_eq!(stats.heap_start, HEAP_START);
    assert_eq!(stats.heap_current, HEAP_START);
    assert_eq!(stats.heap_end, HEAP_END);
    assert_eq!(stats.total_memory, HEAP_END - HEAP_START);
    assert_eq!(stats.used_memory, 0);
    let regions = m.get_regions();
    assert_eq!(regions.len(), 2);
    assert_eq!(regions[0].start, HEAP_START);
    assert_eq!(regions[0].region_type, MemoryRegionType::Available);
    assert_eq!(regions[1].region_type, MemoryRegionType::Bootloader);
}

#[test]
fn successive_allocations_never_overlap() {
    let mut m = MemoryManager::new();
    let mut win = heap_window();
    let sizes: [usize; 5] = [10, 1, 8, 100, 4096];
    let mut ranges: Vec<(usize, usize)> = Vec::new();
    for &sz in sizes.iter() {
        let aligned = (sz + 7) & !7;
        let addr = m.allocate(sz, &mut win).unwrap();
        for &(s, e) in ranges.iter() {
            assert!(addr + aligned <= s || e <= addr);
        }
        ranges.push((addr, addr + aligned));
    }
    let total: usize = ranges.iter().map(|&(s, e)| e - s).sum();
    assert!(total <= HEAP_END - HEAP_START);
    assert_eq!(m.get_stats().used_memory, total);
}

#[test]
fn allocate_rounds_to_eight_bytes_and_zero_fills() {
    let mut m = MemoryManager::new();
    let mut win = heap_window();
    let a = m.allocate(10, &mut win).unwrap();
    assert_eq!(a, HEAP_START);
    let b = m.allocate(1, &mut win).unwrap();
    assert_eq!(b, HEAP_START + 16);
    for off in 0..16 {
        assert_eq!(win.read_byte(a + off), 0);
    }
    assert!(m.allocate(0, &mut win).is_none());
}

#[test]
fn allocate_fails_when_the_heap_is_exhausted() {
    let mut m = MemoryManager::new();
    let mut win = heap_window();
    assert!(m.allocate(HEAP_END - HEAP_START + 1, &mut win).is_none());
    let a = m.allocate(HEAP_END - HEAP_START, &mut win);
    assert_eq!(a, Some(HEAP_START));
    assert!(m.allocate(1, &mut win).is_none());
}

#[test]
fn aligned_allocations_land_on_their_boundary() {
    let mut m = MemoryManager::new();
    let mut win = heap_window();
    m.allocate(10, &mut win).unwrap();
    let a = m.allocate_aligned(100, 4096, &mut win).unwrap();
    assert_eq!(a % 4096, 0);
    assert_eq!(a, HEAP_START + 4096);
    assert!(m.allocate_aligned(8, 3, &mut win).is_none());
    assert!(m.allocate_aligned(8, 0, &mut win).is_none());
    assert!(m.allocate_aligned(0, 8, &mut win).is_none());
}

#[test]
fn page_allocations_are_page_aligned_and_zeroed() {
    let mut m = MemoryManager::new();
    let mut win = heap_window();
    let a = allocate_pages(&mut m, &mut win, 2).unwrap();
    assert_eq!(a % 4096, 0);
    for off in 0..8192 {
        assert_eq!(win.read_byte(a + off), 0);
    }
    assert_eq!(
        allocate_pages(&mut m, &mut win, usize::MAX / 4096 + 1).unwrap_err(),
        BootError::ResourceExhausted
    );
}

#[test]
fn reserve_fails_on_overlap_and_keeps_heap_end() {
    let mut m = MemoryManager::new();
    let mut win = heap_window();
    m.allocate(0x100, &mut win).unwrap();
    // The requested range intersects [heap_start, heap_current).
    let r = m.reserve_region(HEAP_START + 0x10, 0x10);
    assert_eq!(r.unwrap_err(), BootError::ResourceExhausted);
    assert_eq!(m.get_stats().heap_end, HEAP_END);
    assert_eq!(m.get_regions().len(), 2);
    // A range that starts below the heap and reaches into it is refused too.
    assert!(m.reserve_region(0, HEAP_START + 1).is_err());
}

#[test]
fn reserve_in_the_free_span_shrinks_heap_end() {
    let mut m = MemoryManager::new();
    let r = m.reserve_region(0x700000, 0x100000);
    assert!(r.is_ok());
    assert_eq!(m.get_stats().heap_end, 0x700000);
    let regions = m.get_regions();
    let last = regions[regions.len() - 1];
    assert_eq!(last.start, 0x700000);
    assert_eq!(last.region_type, MemoryRegionType::Reserved);
    // A reservation entirely outside the heap leaves heap_end alone.
    let mut m2 = MemoryManager::new();
    m2.reserve_region(0x7C00, 0x100).unwrap();
    assert_eq!(m2.get_stats().heap_end, HEAP_END);
}

#[test]
fn find_kernel_location_prefers_the_canonical_address() {
    let m = MemoryManager::new();
    assert_eq!(m.find_kernel_location(0x1000), Some(0x200000));
    // Too big for the canonical spot: the first available region is offered.
    assert_eq!(m.find_kernel_location(0x700000), Some(HEAP_START));
    // Too big for anything.
    assert_eq!(m.find_kernel_location(usize::MAX / 2), None);
}

#[test]
fn mark_kernel_loaded_only_records_a_region() {
    let mut m = MemoryManager::new();
    let before = m.get_stats();
    m.mark_kernel_loaded(0x200000, 0x1000);
    let after = m.get_stats();
    assert_eq!(before, after);
    let regions = m.get_regions();
    assert_eq!(regions[regions.len() - 1].region_type, MemoryRegionType::Kernel);
}

#[test]
fn reserve_for_kernel_records_both_regions() {
    let mut m = MemoryManager::new();
    reserve_for_kernel(&mut m, 0x700000, 0x1000).unwrap();
    let regions = m.get_regions();
    assert_eq!(regions.len(), 4);
    assert_eq!(regions[2].region_type, MemoryRegionType::Reserved);
    assert_eq!(regions[3].region_type, MemoryRegionType::Kernel);
    assert_eq!(m.get_stats().heap_end, 0x700000);
    let mut m2 = MemoryManager::new();
    let mut win = heap_window();
    m2.allocate(0x100, &mut win).unwrap();
    assert!(reserve_for_kernel(&mut m2, HEAP_START, 0x10).is_err());
}

#[test]
fn reset_rewinds_the_bump_pointer() {
    let mut m = MemoryManager::new();
    let mut win = heap_window();
    m.allocate(100, &mut win).unwrap();
    m.reset();
    let stats = m.get_stats();
    assert_eq!(stats.heap_current, HEAP_START);
    assert_eq!(stats.used_memory, 0);
}

#[test]
fn deallocate_changes_nothing() {
    let mut m = MemoryManager::new();
    let mut win = heap_window();
    let a = m.allocate(100, &mut win).unwrap();
    let before = m.get_stats();
    m.deallocate(a, 100);
    assert_eq!(m.get_stats(), before);
}

#[test]
fn valid_range_and_available_memory_track_the_heap() {
    let mut m = MemoryManager::new();
    let mut win = heap_window();
    assert!(m.is_valid_range(HEAP_START, 0x1000));
    assert!(!m.is_valid_range(HEAP_START - 1, 2));
    assert!(!m.is_valid_range(HEAP_END, 1));
    assert_eq!(m.available_memory(), HEAP_END - HEAP_START);
    m.allocate(64, &mut win).unwrap();
    assert_eq!(m.available_memory(), HEAP_END - HEAP_START - 64);
}

#[test]
fn allocate_file_buffer_is_page_aligned() {
    let mut m = MemoryManager::new();
    let mut win = heap_window();
    m.allocate(1, &mut win).unwrap();
    let a = m.allocate_file_buffer(100, &mut win).unwrap();
    assert_eq!(a % 4096, 0);
}

#[test]
fn init_reports_the_totals() {
    let (m, text) = init();
    assert_eq!(m.get_stats().total_memory, 7 * 1024 * 1024);
    assert_eq!(text, "Memory initialized: 7MB total, 7MB available\n");
}

#[test]
fn stats_text_renders_the_three_counters() {
    let mut m = MemoryManager::new();
    let mut win = heap_window();
    m.allocate(2048, &mut win).unwrap();
    let stats = get_memory_stats(&m);
    assert_eq!(stats.used_memory, 2048);
    let text = print_memory_stats(&m);
    assert_eq!(text, "Memory stats:\n total: 7MB\n used: 2KB\n Free: 6MB\n");
}

#[test]
fn find_kernel_address_matches_the_manager() {
    let m = MemoryManager::new();
    assert_eq!(find_kernel_address(&m, 0x1000), Some(0x200000));
}
