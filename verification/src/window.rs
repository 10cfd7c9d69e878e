use vstd::prelude::*;

verus! {

/// A bounds-checked window onto physical memory.
///
/// The window owns the bytes of the address range
/// `[base, base + len)`; every read and write names an absolute physical
/// address and is checked against the range. The executable loader and the
/// allocator's zero-fill go through such a window instead of writing to
/// arbitrary addresses; outside the library the window's bytes stand for
/// (or are flushed to) the real physical range.
pub struct MemoryWindow {
    base: usize,
    mem: Vec<u8>,
}

impl View for MemoryWindow {
    type V = Seq<u8>;

    closed spec fn view(&self) -> Seq<u8> {
        self.mem@
    }
}

impl MemoryWindow {
    /// The first physical address the window covers.
    pub closed spec fn spec_base(self) -> usize {
        self.base
    }

    /// The window covers a range that fits in the address space.
    pub open spec fn wf(self) -> bool {
        self.spec_base() + self@.len() <= usize::MAX
    }

    /// True when `[addr, addr + len)` lies inside the window.
    pub open spec fn spec_contains(self, addr: int, len: int) -> bool {
        self.spec_base() <= addr && addr + len <= self.spec_base() + self@.len()
    }

    /// A window of `size` zero bytes starting at physical address `base`.
    pub fn new(base: usize, size: usize) -> (w: Self)
        requires
            base + size <= usize::MAX,
        ensures
            w.wf(),
            w.spec_base() == base,
            w@ == Seq::<u8>::new(size as nat, |i: int| 0u8),
    {
        let mut mem: Vec<u8> = Vec::new();
        let mut i: usize = 0;
        while i < size
            invariant
                i <= size,
                mem@ == Seq::<u8>::new(i as nat, |j: int| 0u8),
            decreases size - i,
        {
            mem.push(0u8);
            proof {
                assert(mem@ =~= Seq::<u8>::new((i + 1) as nat, |j: int| 0u8));
            }
            i = i + 1;
        }
        MemoryWindow { base, mem }
    }

    /// The first address, as a run-time value.
    pub fn base(&self) -> (b: usize)
        ensures
            b == self.spec_base(),
    {
        self.base
    }

    /// How many bytes the window covers.
    pub fn len(&self) -> (n: usize)
        ensures
            n == self@.len(),
    {
        self.mem.len()
    }

    /// Run-time range check, equal to `spec_contains`.
    pub fn contains(&self, addr: usize, len: usize) -> (r: bool)
        requires
            self.wf(),
            addr + len <= usize::MAX,
        ensures
            r == self.spec_contains(addr as int, len as int),
    {
        self.base <= addr && addr - self.base <= self.mem.len() && len <= self.mem.len() - (addr
            - self.base)
    }

    /// Copy `src` into the window at absolute address `addr`.
    pub fn write_bytes(&mut self, addr: usize, src: &[u8])
        requires
            old(self).wf(),
            old(self).spec_contains(addr as int, src@.len() as int),
        ensures
            final(self).wf(),
            final(self).spec_base() == old(self).spec_base(),
            final(self)@.len() == old(self)@.len(),
            final(self)@ == old(self)@.subrange(0, addr - old(self).spec_base()) + src@ + old(
                self,
            )@.skip(addr - old(self).spec_base() + src@.len()),
    {
        let off: usize = addr - self.base;
        let n: usize = src.len();
        let mut i: usize = 0;
        while i < n
            invariant
                i <= n,
                n == src@.len(),
                off + n <= self.mem@.len(),
                self.mem@.len() == old(self)@.len(),
                self.base == old(self).spec_base(),
                self.mem@.len() <= usize::MAX,
                self.mem@ == old(self)@.subrange(0, off as int) + src@.subrange(0, i as int) + old(
                    self,
                )@.skip(off + i),
            decreases n - i,
        {
            let b: u8 = src[i];
            self.mem.set(off + i, b);
            proof {
                assert(self.mem@ =~= old(self)@.subrange(0, off as int) + src@.subrange(
                    0,
                    i + 1,
                ) + old(self)@.skip(off + i + 1));
            }
            i = i + 1;
        }
        proof {
            assert(src@.subrange(0, n as int) =~= src@);
        }
    }

    /// Write `len` copies of `val` at absolute address `addr`.
    pub fn fill_bytes(&mut self, addr: usize, len: usize, val: u8)
        requires
            old(self).wf(),
            old(self).spec_contains(addr as int, len as int),
        ensures
            final(self).wf(),
            final(self).spec_base() == old(self).spec_base(),
            final(self)@.len() == old(self)@.len(),
            final(self)@ == old(self)@.subrange(0, addr - old(self).spec_base()) + Seq::<u8>::new(
                len as nat,
                |i: int| val,
            ) + old(self)@.skip(addr - old(self).spec_base() + len),
    {
        let off: usize = addr - self.base;
        let mut i: usize = 0;
        while i < len
            invariant
                i <= len,
                off + len <= self.mem@.len(),
                self.mem@.len() == old(self)@.len(),
                self.base == old(self).spec_base(),
                self.mem@.len() <= usize::MAX,
                self.mem@ == old(self)@.subrange(0, off as int) + Seq::<u8>::new(
                    i as nat,
                    |j: int| val,
                ) + old(self)@.skip(off + i),
            decreases len - i,
        {
            self.mem.set(off + i, val);
            proof {
                assert(self.mem@ =~= old(self)@.subrange(0, off as int) + Seq::<u8>::new(
                    (i + 1) as nat,
                    |j: int| val,
                ) + old(self)@.skip(off + i + 1));
            }
            i = i + 1;
        }
    }

    /// The byte at absolute address `addr`.
    pub fn read_byte(&self, addr: usize) -> (b: u8)
        requires
            self.wf(),
            self.spec_contains(addr as int, 1),
        ensures
            b == self@[addr - self.spec_base()],
    {
        self.mem[addr - self.base]
    }

    /// Copy out the bytes of `[addr, addr + len)`.
    pub fn read_range(&self, addr: usize, len: usize) -> (out: Vec<u8>)
        requires
            self.wf(),
            self.spec_contains(addr as int, len as int),
        ensures
            out@ == self@.subrange(addr - self.spec_base(), addr - self.spec_base() + len),
    {
        let off: usize = addr - self.base;
        let mut out: Vec<u8> = Vec::new();
        let mut i: usize = 0;
        while i < len
            invariant
                i <= len,
                off + len <= self.mem@.len(),
                self.mem@.len() <= usize::MAX,
                out@ == self.mem@.subrange(off as int, off + i),
            decreases len - i,
        {
            out.push(self.mem[off + i]);
            proof {
                assert(out@ =~= self.mem@.subrange(off as int, off + i + 1));
            }
            i = i + 1;
        }
        out
    }
}

} // verus!
