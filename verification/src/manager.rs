use vstd::prelude::*;

use crate::error::BootError;
use crate::window::MemoryWindow;

verus! {

/// Lowest physical address the bump heap may hand out.
pub const MEMORY_START: usize = 0x100000;

/// One past the highest physical address the bump heap may hand out.
pub const MEMORY_END: usize = 0x800000;

/// Granularity of page allocations.
pub const PAGE_SIZE: usize = 4096;

/// Capacity of the region catalogue.
pub const MAX_REGIONS: usize = 32;

/// Canonical kernel load address offered first by `find_kernel_location`.
pub const KERNEL_LOAD_ADDR: usize = 0x200000;

/// What a catalogued physical region is used for.
#[derive(Clone, Copy, Debug, PartialEq, Eq, Structural)]
pub enum MemoryRegionType {
    Available,
    Reserved,
    AcpiReclaim,
    AcpiNvs,
    BadMemory,
    Bootloader,
    Kernel,
}

/// One entry of the region catalogue.
#[derive(Clone, Copy, Debug, PartialEq, Eq, Structural)]
pub struct MemoryRegion {
    pub start: usize,
    pub size: usize,
    pub region_type: MemoryRegionType,
}

/// A snapshot of the allocator's counters.
#[derive(Clone, Copy, Debug, PartialEq, Eq, Structural)]
pub struct MemoryStats {
    pub total_memory: usize,
    pub used_memory: usize,
    pub free_memory: usize,
    pub heap_start: usize,
    pub heap_current: usize,
    pub heap_end: usize,
}

/// A bump allocator over `[heap_start, heap_end)` plus an append-only
/// catalogue of named regions.
///
/// The bump pointer `heap_current` only moves forward (except through
/// `reset`); nothing is ever reused. The catalogue holds at most
/// `MAX_REGIONS` entries; past that, further entries are dropped silently.
pub struct MemoryManager {
    pub regions: [Option<MemoryRegion>; 32],
    pub region_count: usize,
    pub heap_start: usize,
    pub heap_current: usize,
    pub heap_end: usize,
    pub allocated_bytes: usize,
}

impl MemoryManager {
    /// Well-formedness: the heap window is ordered, the catalogue count is
    /// within capacity and counts only occupied slots, and the byte counter
    /// never exceeds the span the bump pointer has passed.
    pub open spec fn wf(self) -> bool {
        &&& self.heap_start <= self.heap_current <= self.heap_end
    &&& self.region_count <= MAX_REGIONS
        &&& self.allocated_bytes <= self.heap_current - self.heap_start
        &&& forall|i: int| 0 <= i < self.region_count ==> self.regions@[i] is Some
    }

    /// The occupied prefix of the catalogue, as a sequence of regions.
    pub open spec fn spec_regions(self) -> Seq<MemoryRegion> {
        Seq::new(self.region_count as nat, |i: int| self.regions@[i]->Some_0)
    }

    /// The heap bookkeeping of `self` and `post` agree.
    pub open spec fn spec_same_heap(self, post: MemoryManager) -> bool {
        &&& post.heap_start == self.heap_start
        &&& post.heap_current == self.heap_current
        &&& post.heap_end == self.heap_end
        &&& post.allocated_bytes == self.allocated_bytes
    }

    /// `post` is `self` with `region` appended to the catalogue; past
    /// capacity the entry is dropped and the catalogue is unchanged.
    pub open spec fn spec_region_added(self, post: MemoryManager, region: MemoryRegion) -> bool {
        &&& self.spec_same_heap(post)
        &&& if self.region_count < MAX_REGIONS {
            &&& post.region_count == self.region_count + 1
            &&& post.spec_regions() == self.spec_regions().push(region)
        } else {
            post == self
        }
    }

    /// A fresh manager over the compiled-in heap window, with the static
    /// memory map: the heap span marked available and the loader's own
    /// low-memory footprint marked as bootloader-owned.
    pub fn new() -> (m: MemoryManager)
        ensures
            m.wf(),
            m.heap_start == MEMORY_START,
            m.heap_current == MEMORY_START,
            m.heap_end == MEMORY_END,
            m.allocated_bytes == 0,
            m.spec_regions() =~= seq![
                MemoryRegion {
                    start: MEMORY_START,
                    size: (MEMORY_END - MEMORY_START) as usize,
                    region_type: MemoryRegionType::Available,
                },
                MemoryRegion {
                    start: 0x7C00,
                    size: 0x98400,
                    region_type: MemoryRegionType::Bootloader,
                },
            ],
    {
        let mut manager = MemoryManager {
            regions: [None;32],
            region_count: 0,
            heap_start: MEMORY_START,
            heap_current: MEMORY_START,
            heap_end: MEMORY_END,
            allocated_bytes: 0,
        };
        manager.detect_memory();
        manager
    }

    /// The compiled-in memory map of the boot environment.
    fn detect_memory(&mut self)
        requires
            old(self).wf(),
            old(self).region_count == 0,
        ensures
            final(self).wf(),
            final(self).region_count == 2,
            old(self).spec_same_heap(*final(self)),
            final(self).spec_regions() == seq![
                MemoryRegion {
                    start: MEMORY_START,
                    size: (MEMORY_END - MEMORY_START) as usize,
                    region_type: MemoryRegionType::Available,
                },
                MemoryRegion {
                    start: 0x7C00,
                    size: 0x98400,
                    region_type: MemoryRegionType::Bootloader,
                },
            ],
    {
        self.add_region(
            MemoryRegion {
                start: MEMORY_START,
                size: MEMORY_END - MEMORY_START,
                region_type: MemoryRegionType::Available,
            },
        );
        self.add_region(
            MemoryRegion { start: 0x7C00, size: 0x98400, region_type: MemoryRegionType::Bootloader },
        );
        proof {
            assert(self.spec_regions() =~= seq![
                MemoryRegion {
                    start: MEMORY_START,
                    size: (MEMORY_END - MEMORY_START) as usize,
                    region_type: MemoryRegionType::Available,
                },
                MemoryRegion {
                    start: 0x7C00,
                    size: 0x98400,
                    region_type: MemoryRegionType::Bootloader,
                },
            ]);
        }
    }

    /// Append `region` to the catalogue; past capacity it is dropped.
    fn add_region(&mut self, region: MemoryRegion)
        ensures
            old(self).spec_region_added(*final(self), region),
            old(self).wf() ==> final(self).wf(),
    {
        if self.region_count < MAX_REGIONS {
            self.regions[self.region_count] = Some(region);
            self.region_count = self.region_count + 1;
            proof {
                assert(self.spec_regions() =~= old(self).spec_regions().push(region));
            }
        }
    }

    /// The allocator's counters.
    pub fn get_stats(&self) -> (s: MemoryStats)
        requires
            self.wf(),
        ensures
            s.total_memory == self.heap_end - self.heap_start,
            s.used_memory == self.allocated_bytes,
            s.free_memory == self.heap_end - self.heap_current,
            s.heap_start == self.heap_start,
            s.heap_current == self.heap_current,
            s.heap_end == self.heap_end,
    {
        MemoryStats {
            total_memory: self.heap_end - self.heap_start,
            used_memory: self.allocated_bytes,
            free_memory: self.heap_end - self.heap_current,
            heap_start: self.heap_start,
            heap_current: self.heap_current,
            heap_end: self.heap_end,
        }
    }

    /// Record a kernel-typed region for bookkeeping; no memory is moved or
    /// protected by this.
    pub fn mark_kernel_loaded(&mut self, start: usize, size: usize)
        ensures
            old(self).spec_region_added(
                *final(self),
                MemoryRegion { start, size, region_type: MemoryRegionType::Kernel },
            ),
            old(self).wf() ==> final(self).wf(),
    {
        self.add_region(MemoryRegion { start, size, region_type: MemoryRegionType::Kernel });
    }

    /// The occupied entries of the catalogue, copied out.
    pub fn get_regions(&self) -> (out: Vec<MemoryRegion>)
        requires
            self.wf(),
        ensures
            out@ == self.spec_regions(),
    {
        let mut out: Vec<MemoryRegion> = Vec::new();
        let mut i: usize = 0;
        while i < self.region_count
            invariant
                self.wf(),
                i <= self.region_count,
                out@ == self.spec_regions().subrange(0, i as int),
            decreases self.region_count - i,
        {
            let r = self.regions[i];
            match r {
                Some(region) => out.push(region),
                None => (),
            }
            proof {
                assert(out@ =~= self.spec_regions().subrange(0, i + 1));
            }
            i = i + 1;
        }
        proof {
            assert(out@ =~= self.spec_regions());
        }
        out
    }

    /// The bump allocator never reuses memory, so deallocation is
    /// deliberately a no-op.
    pub fn deallocate(&mut self, ptr: usize, size: usize)
        ensures
            *final(self) == *old(self),
    {
        let _ = ptr;
        let _ = size;
    }

    /// Rewind the bump pointer to the start of the heap window.
    pub fn reset(&mut self)
        ensures
            *final(self) == (MemoryManager {
                heap_current: old(self).heap_start,
                allocated_bytes: 0,
                ..*old(self)
            }),
    {
        self.heap_current = self.heap_start;
        self.allocated_bytes = 0;
    }

    /// True when `[start, start + size)` lies inside the heap window.
    pub fn is_valid_range(&self, start: usize, size: usize) -> (r: bool)
        requires
            self.wf(),
        ensures
            r == (start >= self.heap_start && start + size <= self.heap_end),
    {
        start >= self.heap_start && (start as u128) + (size as u128) <= (self.heap_end as u128)
    }

    /// Bytes the bump allocator can still hand out.
    pub fn available_memory(&self) -> (n: usize)
        requires
            self.wf(),
        ensures
            n == self.heap_end - self.heap_current,
    {
        self.heap_end - self.heap_current
    }

    /// The window covers the whole heap span of this manager.
    pub open spec fn spec_window_covers_heap(self, win: MemoryWindow) -> bool {
        &&& win.spec_base() <= self.heap_start
        &&& self.heap_end <= win.spec_base() + win@.len()
    }

    /// The result and post-state of a successful `allocate`, or `None` when
    /// the request is empty or does not fit before `heap_end`.
    pub open spec fn spec_allocate(self, size: usize) -> Option<(usize, MemoryManager)> {
        let aligned = spec_align_up(size as int, 8);
        if size == 0 || self.heap_current + aligned > self.heap_end {
            None
        } else {
            Some(
                (
                    self.heap_current,
                    MemoryManager {
                        heap_current: (self.heap_current + aligned) as usize,
                        allocated_bytes: (self.allocated_bytes + aligned) as usize,
                        ..self
                    },
                ),
            )
        }
    }

    /// `win` is `old_win` with `[addr, addr + len)` zero-filled and every
    /// other byte unchanged.
    pub open spec fn spec_zero_filled(
        old_win: MemoryWindow,
        win: MemoryWindow,
        addr: int,
        len: int,
    ) -> bool {
        &&& win.spec_base() == old_win.spec_base()
        &&& win@ == old_win@.subrange(0, addr - old_win.spec_base()) + Seq::<u8>::new(
            len as nat,
            |i: int| 0u8,
        ) + old_win@.skip(addr - old_win.spec_base() + len)
    }

    /// Bump-allocate `size` bytes, rounded up to 8-byte alignment, zero
    /// filling them through `win`. Fails exactly when `size` is zero or the
    /// rounded request does not fit before `heap_end`; on failure nothing
    /// changes.
    pub fn allocate(&mut self, size: usize, win: &mut MemoryWindow) -> (r: Option<usize>)
        requires
            old(self).wf(),
            old(win).wf(),
            old(self).spec_window_covers_heap(*old(win)),
        ensures
            final(self).wf(),
            final(win).wf(),
            old(self).spec_window_covers_heap(*final(win)),
            match r {
                None => {
                    &&& *final(self) == *old(self)
                    &&& *final(win) == *old(win)
                    &&& old(self).spec_allocate(size) is None
                },
                Some(addr) => {
                    &&& old(self).spec_allocate(size) == Some((addr, *final(self)))
                    &&& Self::spec_zero_filled(
                        *old(win),
                        *final(win),
                        addr as int,
                        spec_align_up(size as int, 8),
                    )
                },
            },
    {
        if size == 0 {
            return None;
        }
        let aligned128: u128 = (((size as u128) + 7) / 8) * 8;
        proof {
            lemma_align_up(size as int, 8);
        }
        if (self.heap_current as u128) + aligned128 > (self.heap_end as u128) {
            return None;
        }
        let aligned: usize = aligned128 as usize;
        let addr: usize = self.heap_current;
        self.heap_current = self.heap_current + aligned;
        self.allocated_bytes = self.allocated_bytes + aligned;
        win.fill_bytes(addr, aligned, 0);
        Some(addr)
    }

    /// The result and post-state of a successful `allocate_aligned`.
    pub open spec fn spec_allocate_aligned(self, size: usize, alignment: usize) -> Option<
        (usize, MemoryManager),
    > {
        let addr = spec_align_up(self.heap_current as int, alignment as int);
        if size == 0 || alignment == 0 || !spec_is_pow2(alignment as int) || addr + size
            > self.heap_end {
            None
        } else {
            Some(
                (
                    addr as usize,
                    MemoryManager {
                        heap_current: (addr + size) as usize,
                        allocated_bytes: (self.allocated_bytes + size) as usize,
                        ..self
                    },
                ),
            )
        }
    }

    /// Bump-allocate `size` bytes at the next boundary of the requested
    /// power-of-two alignment, zero filling them through `win`.
    pub fn allocate_aligned(&mut self, size: usize, alignment: usize, win: &mut MemoryWindow) -> (r:
        Option<usize>)
        requires
            old(self).wf(),
            old(win).wf(),
            old(self).spec_window_covers_heap(*old(win)),
        ensures
            final(self).wf(),
            final(win).wf(),
            old(self).spec_window_covers_heap(*final(win)),
            match r {
                None => {
                    &&& *final(self) == *old(self)
                    &&& *final(win) == *old(win)
                    &&& old(self).spec_allocate_aligned(size, alignment) is None
                },
                Some(addr) => {
                    &&& old(self).spec_allocate_aligned(size, alignment) == Some(
                        (addr, *final(self)),
                    )
                    &&& addr % alignment == 0
                    &&& Self::spec_zero_filled(*old(win), *final(win), addr as int, size as int)
                },
            },
    {
        if size == 0 || alignment == 0 || !is_pow2(alignment) {
            return None;
        }
        let q128: u128 = ((self.heap_current as u128) + (alignment as u128) - 1) / (
        alignment as u128);
        proof {
            lemma_align_up(self.heap_current as int, alignment as int);
        }
        let addr128: u128 = q128 * (alignment as u128);
        if addr128 + (size as u128) > (self.heap_end as u128) {
            return None;
        }
        let addr: usize = addr128 as usize;
        self.heap_current = addr + size;
        self.allocated_bytes = self.allocated_bytes + size;
        win.fill_bytes(addr, size, 0);
        Some(addr)
    }

    /// Allocate `page_count` pages of `PAGE_SIZE` bytes, page aligned.
    pub fn allocate_pages(&mut self, page_count: usize, win: &mut MemoryWindow) -> (r: Option<
        usize,
    >)
        requires
            old(self).wf(),
            old(win).wf(),
            old(self).spec_window_covers_heap(*old(win)),
        ensures
            final(self).wf(),
            final(win).wf(),
            old(self).spec_window_covers_heap(*final(win)),
            page_count * PAGE_SIZE > usize::MAX ==> r is None && *final(self) == *old(self)
                && *final(win) == *old(win),
            page_count * PAGE_SIZE <= usize::MAX ==> match r {
                None => {
                    &&& *final(self) == *old(self)
                    &&& *final(win) == *old(win)
                    &&& old(self).spec_allocate_aligned(
                        (page_count * PAGE_SIZE) as usize,
                        PAGE_SIZE,
                    ) is None
                },
                Some(addr) => {
                    &&& old(self).spec_allocate_aligned(
                        (page_count * PAGE_SIZE) as usize,
                        PAGE_SIZE,
                    ) == Some((addr, *final(self)))
                    &&& Self::spec_zero_filled(*old(win), *final(win), addr as int, (page_count
                        * PAGE_SIZE) as int)
                },
            },
    {
        if page_count > usize::MAX / PAGE_SIZE {
            return None;
        }
        let size: usize = page_count * PAGE_SIZE;
        self.allocate_aligned(size, PAGE_SIZE, win)
    }

    /// Allocate a page-aligned buffer for file loading.
    pub fn allocate_file_buffer(&mut self, size: usize, win: &mut MemoryWindow) -> (r: Option<
        usize,
    >)
        requires
            old(self).wf(),
            old(win).wf(),
            old(self).spec_window_covers_heap(*old(win)),
        ensures
            final(self).wf(),
            final(win).wf(),
            old(self).spec_window_covers_heap(*final(win)),
            match r {
                None => {
                    &&& *final(self) == *old(self)
                    &&& *final(win) == *old(win)
                    &&& old(self).spec_allocate_aligned(size, 4096) is None
                },
                Some(addr) => {
                    &&& old(self).spec_allocate_aligned(size, 4096) == Some((addr, *final(self)))
                    &&& Self::spec_zero_filled(*old(win), *final(win), addr as int, size as int)
                },
            },
    {
        self.allocate_aligned(size, 4096, win)
    }

    /// A reservation request is accepted exactly when its range does not
    /// overlap the already-bumped span `[heap_start, heap_current)`.
    pub open spec fn spec_reserve_ok(self, start: usize, size: usize) -> bool {
        !(start < self.heap_current && start + size > self.heap_start)
    }

    /// `post` is `self` after a successful reservation of
    /// `[start, start + size)`: `heap_end` shrunk to `start` when the range
    /// begins in the remaining free span, and a `Reserved` region appended.
    pub open spec fn spec_reserved(self, post: MemoryManager, start: usize, size: usize) -> bool {
        let shrunk = MemoryManager {
            heap_end: if start >= self.heap_current && start < self.heap_end {
                start
            } else {
                self.heap_end
            },
            ..self
        };
        shrunk.spec_region_added(
            post,
            MemoryRegion { start, size, region_type: MemoryRegionType::Reserved },
        )
    }

    /// Reserve `[start, start + size)` for something outside the bump heap.
    ///
    /// Fails with `ResourceExhausted`, changing nothing, exactly when the
    /// range overlaps already-bumped space; in particular `heap_end` never
    /// shrinks on failure. On success, a reservation inside the remaining
    /// free span shrinks `heap_end` to `start`, and a `Reserved` region is
    /// catalogued.
    pub fn reserve_region(&mut self, start: usize, size: usize) -> (r: Result<(), BootError>)
        requires
            old(self).wf(),
        ensures
            final(self).wf(),
            r is Ok <==> old(self).spec_reserve_ok(start, size),
            r is Err ==> *final(self) == *old(self) && r == Err::<(), BootError>(
                BootError::ResourceExhausted,
            ),
            r is Ok ==> old(self).spec_reserved(*final(self), start, size),
    {
        if start < self.heap_current && (start as u128) + (size as u128)
            > (self.heap_start as u128) {
            return Err(BootError::ResourceExhausted);
        }
        if start >= self.heap_current && start < self.heap_end {
            self.heap_end = start;
        }
        self.add_region(MemoryRegion { start, size, region_type: MemoryRegionType::Reserved });
        Ok(())
    }

    /// First catalogued `Available` region of at least `need` bytes, if any,
    /// scanning from slot `i`.
    pub open spec fn spec_scan_regions(regions: Seq<MemoryRegion>, need: int, i: int) -> Option<
        usize,
    >
        decreases regions.len() - i,
    {
        if i < 0 || i >= regions.len() {
            None
        } else if regions[i].region_type == MemoryRegionType::Available && regions[i].size
            >= need {
            Some(regions[i].start)
        } else {
            Self::spec_scan_regions(regions, need, i + 1)
        }
    }

    /// Where `find_kernel_location` places a kernel of `kernel_size` bytes:
    /// the canonical address when the kernel fits there before `heap_end`,
    /// else the first catalogued `Available` region that can hold the
    /// page-rounded size.
    pub open spec fn spec_find_kernel_location(self, kernel_size: usize) -> Option<usize> {
        if KERNEL_LOAD_ADDR + kernel_size < self.heap_end {
            Some(KERNEL_LOAD_ADDR)
        } else {
            Self::spec_scan_regions(
                self.spec_regions(),
                spec_align_up(kernel_size as int, PAGE_SIZE as int),
                0,
            )
        }
    }

    /// Offer a location for the kernel image.
    pub fn find_kernel_location(&self, kernel_size: usize) -> (r: Option<usize>)
        requires
            self.wf(),
        ensures
            r == self.spec_find_kernel_location(kernel_size),
    {
        if (KERNEL_LOAD_ADDR as u128) + (kernel_size as u128) < (self.heap_end as u128) {
            return Some(KERNEL_LOAD_ADDR);
        }
        let aligned128: u128 = (((kernel_size as u128) + (PAGE_SIZE as u128) - 1) / (
        PAGE_SIZE as u128)) * (PAGE_SIZE as u128);
        proof {
            lemma_align_up(kernel_size as int, PAGE_SIZE as int);
        }
        let ghost need: int = spec_align_up(kernel_size as int, PAGE_SIZE as int);
        let mut i: usize = 0;
        while i < self.region_count
            invariant
                self.wf(),
                i <= self.region_count,
                aligned128 == need,
                need == spec_align_up(kernel_size as int, PAGE_SIZE as int),
                !(KERNEL_LOAD_ADDR + kernel_size < self.heap_end),
                Self::spec_scan_regions(self.spec_regions(), need, 0)
                    == Self::spec_scan_regions(self.spec_regions(), need, i as int),
            decreases self.region_count - i,
        {
            match self.regions[i] {
                Some(region) => {
                    if matches!(region.region_type, MemoryRegionType::Available) && (region.size
                        as u128) >= aligned128 {
                        proof {
                            assert(self.spec_regions()[i as int] == region);
                            assert(Self::spec_scan_regions(self.spec_regions(), need, i as int)
                                == Some(region.start));
                        }
                        return Some(region.start);
                    }
                },
                None => (),
            }
            i = i + 1;
        }
        None
    }
}

/// The outcome of a sequence of `allocate` calls, each feeding the manager
/// the previous call left behind: the final manager and, per call, the
/// returned address with its rounded-up length. `None` as soon as one call
/// fails.
pub open spec fn spec_alloc_run(m: MemoryManager, sizes: Seq<usize>) -> Option<
    (MemoryManager, Seq<(usize, int)>),
>
    decreases sizes.len(),
{
    if sizes.len() == 0 {
        Some((m, Seq::empty()))
    } else {
        match m.spec_allocate(sizes[0]) {
            None => None,
            Some((addr, m1)) => match spec_alloc_run(m1, sizes.skip(1)) {
                None => None,
                Some((mf, rest)) => Some(
                    (mf, seq![(addr, spec_align_up(sizes[0] as int, 8))] + rest),
                ),
            },
        }
    }
}

/// Total rounded-up length of a list of allocated ranges.
pub open spec fn spec_ranges_total(ranges: Seq<(usize, int)>) -> int
    decreases ranges.len(),
{
    if ranges.len() == 0 {
        0
    } else {
        ranges[0].1 + spec_ranges_total(ranges.skip(1))
    }
}

proof fn lemma_alloc_run_props(m: MemoryManager, sizes: Seq<usize>)
    requires
        m.wf(),
        spec_alloc_run(m, sizes) is Some,
    ensures
        ({
            let (mf, ranges) = spec_alloc_run(m, sizes)->Some_0;
            &&& mf.wf()
            &&& mf.heap_start == m.heap_start
            &&& mf.heap_end == m.heap_end
            &&& mf.heap_current >= m.heap_current
            &&& ranges.len() == sizes.len()
            &&& forall|k: int|
                0 <= k < ranges.len() ==> m.heap_current <= #[trigger] ranges[k].0 && ranges[k].0
                    + ranges[k].1 <= mf.heap_current && ranges[k].1 >= 1
            &&& forall|k: int, l: int|
                0 <= k < l < ranges.len() ==> #[trigger] ranges[k].0 + ranges[k].1
                    <= #[trigger] ranges[l].0
            &&& spec_ranges_total(ranges) == mf.heap_current - m.heap_current
        }),
    decreases sizes.len(),
{
    if sizes.len() == 0 {
    } else {
        let (addr, m1) = m.spec_allocate(sizes[0])->Some_0;
        let aligned = spec_align_up(sizes[0] as int, 8);
        lemma_align_up(sizes[0] as int, 8);
        assert(m1.wf());
        lemma_alloc_run_props(m1, sizes.skip(1));
        let (mf, rest) = spec_alloc_run(m1, sizes.skip(1))->Some_0;
        let ranges = spec_alloc_run(m, sizes)->Some_0.1;
        assert(ranges == seq![(addr, aligned)] + rest);
        assert(ranges.skip(1) =~= rest);
        assert(forall|k: int| 0 <= k < rest.len() ==> ranges[k + 1] == #[trigger] rest[k]);
    }
}

/// Law: for any sequence of successful `allocate` calls on one manager
/// instance, the returned ranges are pairwise disjoint, and the cumulative
/// rounded-up size never exceeds `heap_end - heap_start`.
pub proof fn lemma_allocate_sequence_safe(m: MemoryManager, sizes: Seq<usize>)
    requires
        m.wf(),
        spec_alloc_run(m, sizes) is Some,
    ensures
        ({
            let ranges = spec_alloc_run(m, sizes)->Some_0.1;
            &&& forall|k: int, l: int|
                0 <= k < l < ranges.len() ==> #[trigger] ranges[k].0 + ranges[k].1 <= #[trigger] ranges[l].0
                    || ranges[l].0 + ranges[l].1 <= ranges[k].0
            &&& spec_ranges_total(ranges) <= m.heap_end - m.heap_start
        }),
{
    lemma_alloc_run_props(m, sizes);
}

/// Law: a reservation whose range intersects the already-bumped span
/// `[heap_start, heap_current)` is refused; by `reserve_region`'s contract
/// the manager — `heap_end` included — is then left unchanged.
pub proof fn lemma_reserve_overlap_refused(m: MemoryManager, start: usize, size: usize, a: int)
    requires
        m.heap_start <= a < m.heap_current,
        start <= a < start + size,
    ensures
        !m.spec_reserve_ok(start, size),
{
}

/// `x` rounded up to the next multiple of `al`.
pub open spec fn spec_align_up(x: int, al: int) -> int {
    ((x + al - 1) / al) * al
}

/// Rounding up lands on a multiple of `al`, at or above `x` and less than
/// one whole `al` above it.
pub proof fn lemma_align_up(x: int, al: int)
    requires
        x >= 0,
        al >= 1,
    ensures
        x <= spec_align_up(x, al) < x + al,
        spec_align_up(x, al) % al == 0,
{
    let q = (x + al - 1) / al;
    vstd::arithmetic::div_mod::lemma_fundamental_div_mod(x + al - 1, al);
    vstd::arithmetic::div_mod::lemma_mod_division_less_than_divisor(x + al - 1, al);
    vstd::arithmetic::div_mod::lemma_mod_multiples_basic(q, al);
}

/// `x` is a power of two.
pub open spec fn spec_is_pow2(x: int) -> bool
    decreases x,
{
    if x <= 0 {
        false
    } else if x == 1 {
        true
    } else {
        x % 2 == 0 && spec_is_pow2(x / 2)
    }
}

/// Run-time power-of-two test, equal to `spec_is_pow2`.
fn is_pow2(x: usize) -> (r: bool)
    ensures
        r == spec_is_pow2(x as int),
{
    if x == 0 {
        return false;
    }
    let mut v: usize = x;
    while v > 1
        invariant
            v >= 1,
            spec_is_pow2(x as int) == spec_is_pow2(v as int),
        decreases v,
    {
        if v % 2 == 1 {
            return false;
        }
        v = v / 2;
    }
    true
}

} // verus!
