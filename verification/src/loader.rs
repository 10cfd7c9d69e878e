use vstd::prelude::*;
use vstd::string::StringSliceAdditionalSpecFns;

use crate::device::DiskImage;
use crate::error::BootError;
use crate::ext::{read_file, spec_read_file, Ext2Fs};
use crate::le::{read_le16, read_le32, read_le64, spec_le16, spec_le32, spec_le64};
use crate::manager::MemoryManager;
use crate::window::MemoryWindow;

verus! {

/// Program-header type tag of a loadable segment.
pub const PT_LOAD: u32 = 1;

/// The consumed fields of an executable image's header.
#[derive(Copy, Clone, Debug, PartialEq, Eq, Structural)]
pub struct ElfHeader {
    pub class: u8,
    pub entry: u64,
    pub ph_off: u64,
    pub ph_entsize: u16,
    pub ph_num: u16,
}

/// One program header's consumed fields.
#[derive(Copy, Clone, Debug, PartialEq, Eq, Structural)]
pub struct Segment {
    pub seg_type: u32,
    pub file_offset: u64,
    pub virt_addr: u64,
    pub file_size: u64,
    pub mem_size: u64,
}

/// Bytes one program header occupies under the given class.
pub open spec fn spec_phdr_bytes(class: u8) -> int {
    if class == 1 {
        32
    } else {
        56
    }
}

/// Parse and validate the image header: the four magic bytes, a class
/// byte selecting the 32- or 64-bit layout, a little-endian data byte,
/// then the entry point and program-header-table fields per the layout.
pub open spec fn spec_parse_header(d: Seq<u8>) -> Result<ElfHeader, BootError> {
    if d.len() < 52 {
        Err(BootError::FormatInvalid)
    } else if !(d[0] == 0x7F && d[1] == 0x45 && d[2] == 0x4C && d[3] == 0x46) {
        Err(BootError::FormatInvalid)
    } else if d[4] != 1 && d[4] != 2 {
        Err(BootError::FormatInvalid)
    } else if d[5] != 1 {
        Err(BootError::FormatInvalid)
    } else if d[4] == 1 {
        Ok(
            ElfHeader {
                class: 1,
                entry: spec_le32(d, 24) as u64,
                ph_off: spec_le32(d, 28) as u64,
                ph_entsize: spec_le16(d, 42) as u16,
                ph_num: spec_le16(d, 44) as u16,
            },
        )
    } else if d.len() < 64 {
        Err(BootError::FormatInvalid)
    } else {
        Ok(
            ElfHeader {
                class: 2,
                entry: spec_le64(d, 24) as u64,
                ph_off: spec_le64(d, 32) as u64,
                ph_entsize: spec_le16(d, 54) as u16,
                ph_num: spec_le16(d, 56) as u16,
            },
        )
    }
}

/// The program header at byte offset `o`, per the class's layout.
pub open spec fn spec_segment_at(d: Seq<u8>, class: u8, o: int) -> Segment {
    if class == 1 {
        Segment {
            seg_type: spec_le32(d, o) as u32,
            file_offset: spec_le32(d, o + 4) as u64,
            virt_addr: spec_le32(d, o + 8) as u64,
            file_size: spec_le32(d, o + 16) as u64,
            mem_size: spec_le32(d, o + 20) as u64,
        }
    } else {
        Segment {
            seg_type: spec_le32(d, o) as u32,
            file_offset: spec_le64(d, o + 8) as u64,
            virt_addr: spec_le64(d, o + 16) as u64,
            file_size: spec_le64(d, o + 32) as u64,
            mem_size: spec_le64(d, o + 40) as u64,
        }
    }
}

/// Program header `i` lies wholly within the image.
pub open spec fn spec_phdr_in_range(d: Seq<u8>, h: ElfHeader, i: int) -> bool {
    let o = h.ph_off + i * h.ph_entsize;
    o + h.ph_entsize <= d.len() && o + spec_phdr_bytes(h.class) <= d.len()
}

/// The loadable segments of the image, from program header `i` on, in
/// table order; headers out of range are skipped.
pub open spec fn spec_load_segments(d: Seq<u8>, h: ElfHeader, i: int) -> Seq<Segment>
    decreases h.ph_num - i,
{
    if i < 0 || i >= h.ph_num {
        Seq::empty()
    } else {
        let rest = spec_load_segments(d, h, i + 1);
        if !spec_phdr_in_range(d, h, i) {
            rest
        } else {
            let seg = spec_segment_at(d, h.class, h.ph_off + i * h.ph_entsize);
            if seg.seg_type != PT_LOAD {
                rest
            } else {
                seq![seg] + rest
            }
        }
    }
}

/// One segment passes the pre-copy checks: its file bytes lie within the
/// image, and its whole memory span lies within the physical window.
pub open spec fn spec_segment_ok(d: Seq<u8>, seg: Segment, base: int, wlen: int) -> bool {
    &&& seg.file_offset + seg.file_size <= d.len()
    &&& base <= seg.virt_addr
    &&& seg.virt_addr + seg.file_size <= base + wlen
    &&& seg.virt_addr + seg.mem_size <= base + wlen
}

/// The first failing check over the segments, in order: `FormatInvalid`
/// for file bytes outside the image, `ResourceExhausted` for a memory
/// span outside the physical window.
pub open spec fn spec_check_segments(d: Seq<u8>, segs: Seq<Segment>, i: int, base: int, wlen: int)
    -> Option<BootError>
    decreases segs.len() - i,
{
    if i < 0 || i >= segs.len() {
        None
    } else if segs[i].file_offset + segs[i].file_size > d.len() {
        Some(BootError::FormatInvalid)
    } else if !(base <= segs[i].virt_addr && segs[i].virt_addr + segs[i].file_size <= base + wlen
        && segs[i].virt_addr + segs[i].mem_size <= base + wlen) {
        Some(BootError::ResourceExhausted)
    } else {
        spec_check_segments(d, segs, i + 1, base, wlen)
    }
}

/// Lowest virtual address any of the segments occupies.
pub open spec fn spec_span_lo(segs: Seq<Segment>) -> int
    decreases segs.len(),
{
    if segs.len() == 0 {
        0
    } else if segs.len() == 1 {
        segs[0].virt_addr as int
    } else {
        let rest = spec_span_lo(segs.skip(1));
        if segs[0].virt_addr < rest {
            segs[0].virt_addr as int
        } else {
            rest
        }
    }
}

/// One past the highest virtual address any of the segments occupies.
pub open spec fn spec_span_hi(segs: Seq<Segment>) -> int
    decreases segs.len(),
{
    if segs.len() == 0 {
        0
    } else if segs.len() == 1 {
        segs[0].virt_addr + segs[0].mem_size
    } else {
        let rest = spec_span_hi(segs.skip(1));
        if segs[0].virt_addr + segs[0].mem_size > rest {
            segs[0].virt_addr + segs[0].mem_size
        } else {
            rest
        }
    }
}

/// `w` with `bytes` written at position `at`.
pub open spec fn spec_write(w: Seq<u8>, at: int, bytes: Seq<u8>) -> Seq<u8> {
    w.subrange(0, at) + bytes + w.skip(at + bytes.len())
}

/// What one segment deposits in memory: its file bytes, then zero fill up
/// to `mem_size` when `mem_size` exceeds `file_size`.
pub open spec fn spec_segment_bytes(d: Seq<u8>, seg: Segment) -> Seq<u8> {
    let file_part = d.subrange(seg.file_offset as int, seg.file_offset + seg.file_size);
    if seg.mem_size > seg.file_size {
        file_part + Seq::<u8>::new((seg.mem_size - seg.file_size) as nat, |i: int| 0u8)
    } else {
        file_part
    }
}

/// The window bytes after copying the segments from `i` on, in order.
pub open spec fn spec_apply_segments(d: Seq<u8>, segs: Seq<Segment>, i: int, w: Seq<u8>, base: int)
    -> Seq<u8>
    decreases segs.len() - i,
{
    if i < 0 || i >= segs.len() {
        w
    } else {
        spec_apply_segments(
            d,
            segs,
            i + 1,
            spec_write(w, segs[i].virt_addr - base, spec_segment_bytes(d, segs[i])),
            base,
        )
    }
}

/// The value `load` returns for this image against this manager and
/// window geometry, before any state change: the entry point, or the
/// first error in validation order.
pub open spec fn spec_load_verdict(d: Seq<u8>, mm: MemoryManager, base: int, wlen: int) -> Result<
    u64,
    BootError,
> {
    match spec_parse_header(d) {
        Err(e) => Err(e),
        Ok(h) => {
            if h.entry > usize::MAX {
                Err(BootError::FormatInvalid)
            } else {
                let segs = spec_load_segments(d, h, 0);
                match spec_check_segments(d, segs, 0, base, wlen) {
                    Some(e) => Err(e),
                    None => {
                        if segs.len() > 0 && !mm.spec_reserve_ok(
                            spec_span_lo(segs) as usize,
                            (spec_span_hi(segs) - spec_span_lo(segs)) as usize,
                        ) {
                            Err(BootError::ResourceExhausted)
                        } else {
                            Ok(h.entry)
                        }
                    },
                }
            }
        },
    }
}

/// Parse and validate the image header.
pub fn parse_header(data: &[u8]) -> (r: Result<ElfHeader, BootError>)
    ensures
        r == spec_parse_header(data@),
{
    let n: usize = data.len();
    if n < 52 {
        return Err(BootError::FormatInvalid);
    }
    if !(data[0] == 0x7F && data[1] == 0x45 && data[2] == 0x4C && data[3] == 0x46) {
        return Err(BootError::FormatInvalid);
    }
    if data[4] != 1 && data[4] != 2 {
        return Err(BootError::FormatInvalid);
    }
    if data[5] != 1 {
        return Err(BootError::FormatInvalid);
    }
    if data[4] == 1 {
        return Ok(
            ElfHeader {
                class: 1,
                entry: read_le32(data, 24) as u64,
                ph_off: read_le32(data, 28) as u64,
                ph_entsize: read_le16(data, 42),
                ph_num: read_le16(data, 44),
            },
        );
    }
    if n < 64 {
        return Err(BootError::FormatInvalid);
    }
    Ok(
        ElfHeader {
            class: 2,
            entry: read_le64(data, 24),
            ph_off: read_le64(data, 32),
            ph_entsize: read_le16(data, 54),
            ph_num: read_le16(data, 56),
        },
    )
}

/// Parse program header `i`.
fn parse_segment(data: &[u8], h: &ElfHeader, i: usize) -> (seg: Segment)
    requires
        h.class == 1 || h.class == 2,
        i < h.ph_num,
        spec_phdr_in_range(data@, *h, i as int),
    ensures
        seg == spec_segment_at(data@, h.class, h.ph_off + i * h.ph_entsize),
{
    let n: usize = data.len();
    proof {
        vstd::arithmetic::mul::lemma_mul_upper_bound(i as int, 65535, h.ph_entsize as int, 65535);
        assert(h.ph_off + i * h.ph_entsize + spec_phdr_bytes(h.class) <= n);
    }
    let o: usize = (h.ph_off as usize) + i * (h.ph_entsize as usize);
    if h.class == 1 {
        Segment {
            seg_type: read_le32(data, o),
            file_offset: read_le32(data, o + 4) as u64,
            virt_addr: read_le32(data, o + 8) as u64,
            file_size: read_le32(data, o + 16) as u64,
            mem_size: read_le32(data, o + 20) as u64,
        }
    } else {
        Segment {
            seg_type: read_le32(data, o),
            file_offset: read_le64(data, o + 8),
            virt_addr: read_le64(data, o + 16),
            file_size: read_le64(data, o + 32),
            mem_size: read_le64(data, o + 40),
        }
    }
}

/// Collect the loadable segments of the image, in table order.
fn collect_load_segments(data: &[u8], h: &ElfHeader) -> (segs: Vec<Segment>)
    requires
        h.class == 1 || h.class == 2,
    ensures
        segs@ == spec_load_segments(data@, *h, 0),
{
    let mut segs: Vec<Segment> = Vec::new();
    let n: usize = data.len();
    let count: usize = h.ph_num as usize;
    let mut i: usize = 0;
    while i < count
        invariant
            h.class == 1 || h.class == 2,
            n == data@.len(),
            count == h.ph_num,
            i <= count,
            segs@ + spec_load_segments(data@, *h, i as int) == spec_load_segments(data@, *h, 0),
        decreases count - i,
    {
        proof {
            vstd::arithmetic::mul::lemma_mul_upper_bound(
                i as int,
                65535,
                h.ph_entsize as int,
                65535,
            );
        }
        let o128: u128 = (h.ph_off as u128) + (i as u128) * (h.ph_entsize as u128);
        let need: u128 = if h.class == 1 {
            32
        } else {
            56
        };
        if o128 + (h.ph_entsize as u128) <= (n as u128) && o128 + need <= (n as u128) {
            let seg = parse_segment(data, h, i);
            if seg.seg_type == PT_LOAD {
                segs.push(seg);
            }
        }
        proof {
            assert(segs@ + spec_load_segments(data@, *h, i + 1) =~= spec_load_segments(
                data@,
                *h,
                0,
            ));
        }
        i = i + 1;
    }
    proof {
        assert(segs@ =~= spec_load_segments(data@, *h, 0));
    }
    segs
}

/// When every segment passes its checks, the segments' span lies within
/// the window.
proof fn lemma_span_bounds(d: Seq<u8>, segs: Seq<Segment>, base: int, wlen: int)
    requires
        segs.len() > 0,
        forall|k: int| 0 <= k < segs.len() ==> spec_segment_ok(d, #[trigger] segs[k], base, wlen),
    ensures
        base <= spec_span_lo(segs),
        spec_span_lo(segs) <= spec_span_hi(segs),
        spec_span_hi(segs) <= base + wlen,
        forall|k: int|
            0 <= k < segs.len() ==> spec_span_lo(segs) <= #[trigger] segs[k].virt_addr
                && segs[k].virt_addr + segs[k].mem_size <= spec_span_hi(segs),
    decreases segs.len(),
{
    if segs.len() > 1 {
        let rest = segs.skip(1);
        assert(forall|k: int|
            0 <= k < rest.len() ==> spec_segment_ok(d, #[trigger] rest[k], base, wlen)) by {
            assert(forall|k: int| 0 <= k < rest.len() ==> rest[k] == segs[k + 1]);
        }
        lemma_span_bounds(d, rest, base, wlen);
        assert(forall|k: int| 1 <= k < segs.len() ==> segs[k] == rest[k - 1]);
    }
}

/// Check all segments against the image and the window, in order.
fn check_segments(data: &[u8], segs: &Vec<Segment>, win: &MemoryWindow) -> (r: Option<BootError>)
    requires
        win.wf(),
    ensures
        r == spec_check_segments(
            data@,
            segs@,
            0,
            win.spec_base() as int,
            win@.len() as int,
        ),
        r is None ==> forall|k: int|
            0 <= k < segs@.len() ==> spec_segment_ok(
                data@,
                #[trigger] segs@[k],
                win.spec_base() as int,
                win@.len() as int,
            ),
{
    let ghost base: int = win.spec_base() as int;
    let ghost wlen: int = win@.len() as int;
    let dn: usize = data.len();
    let wbase: usize = win.base();
    let wl: usize = win.len();
    let n: usize = segs.len();
    let mut i: usize = 0;
    while i < n
        invariant
            n == segs@.len(),
            dn == data@.len(),
            wbase == base,
            wl == wlen,
            base == win.spec_base() as int,
            wlen == win@.len() as int,
            i <= n,
            spec_check_segments(data@, segs@, 0, base, wlen) == spec_check_segments(
                data@,
                segs@,
                i as int,
                base,
                wlen,
            ),
            forall|k: int|
                0 <= k < i ==> spec_segment_ok(data@, #[trigger] segs@[k], base, wlen),
        decreases n - i,
    {
        let seg = segs[i];
        if (seg.file_offset as u128) + (seg.file_size as u128) > (dn as u128) {
            return Some(BootError::FormatInvalid);
        }
        if !((wbase as u64) <= seg.virt_addr as u64 && (seg.virt_addr as u128) + (seg.file_size
            as u128) <= (wbase as u128) + (wl as u128) && (seg.virt_addr as u128) + (seg.mem_size
            as u128) <= (wbase as u128) + (wl as u128)) {
            return Some(BootError::ResourceExhausted);
        }
        i = i + 1;
    }
    None
}

/// Compute the segments' covering span.
fn compute_span(segs: &Vec<Segment>) -> (r: (usize, usize))
    requires
        segs@.len() > 0,
        forall|k: int|
            0 <= k < segs@.len() ==> #[trigger] segs@[k].virt_addr + segs@[k].mem_size
                <= usize::MAX,
    ensures
        r.0 == spec_span_lo(segs@),
        r.1 == spec_span_hi(segs@),
{
    let n: usize = segs.len();
    let last = segs[n - 1];
    let mut lo: usize = last.virt_addr as usize;
    let mut hi: usize = (last.virt_addr + last.mem_size) as usize;
    proof {
        assert(segs@.skip(n - 1) =~= seq![segs@[n - 1]]);
    }
    let mut i: usize = n - 1;
    while i > 0
        invariant
            n == segs@.len(),
            i < n,
            forall|k: int|
                0 <= k < segs@.len() ==> #[trigger] segs@[k].virt_addr + segs@[k].mem_size
                    <= usize::MAX,
            lo == spec_span_lo(segs@.skip(i as int)),
            hi == spec_span_hi(segs@.skip(i as int)),
        decreases i,
    {
        i = i - 1;
        let seg = segs[i];
        proof {
            assert(segs@.skip(i as int)[0] == segs@[i as int]);
            assert(segs@.skip(i as int).skip(1) =~= segs@.skip(i + 1));
            assert(segs@.skip(i as int).len() == n - i);
        }
        if (seg.virt_addr as usize) < lo {
            lo = seg.virt_addr as usize;
        }
        let end: usize = (seg.virt_addr + seg.mem_size) as usize;
        if end > hi {
            hi = end;
        }
    }
    proof {
        assert(segs@.skip(0) =~= segs@);
    }
    (lo, hi)
}

/// Copy the segments into the window, in order: `file_size` bytes from
/// the image to each segment's virtual address, then zero fill up to
/// `mem_size`.
fn copy_segments(data: &[u8], segs: &Vec<Segment>, win: &mut MemoryWindow)
    requires
        old(win).wf(),
        forall|k: int|
            0 <= k < segs@.len() ==> spec_segment_ok(
                data@,
                #[trigger] segs@[k],
                old(win).spec_base() as int,
                old(win)@.len() as int,
            ),
    ensures
        final(win).wf(),
        final(win).spec_base() == old(win).spec_base(),
        final(win)@.len() == old(win)@.len(),
        final(win)@ == spec_apply_segments(
            data@,
            segs@,
            0,
            old(win)@,
            old(win).spec_base() as int,
        ),
{
    let ghost base: int = old(win).spec_base() as int;
    let dn: usize = data.len();
    let n: usize = segs.len();
    let mut i: usize = 0;
    while i < n
        invariant
            dn == data@.len(),
            n == segs@.len(),
            i <= n,
            win.wf(),
            win.spec_base() == old(win).spec_base(),
            win@.len() == old(win)@.len(),
            base == old(win).spec_base() as int,
            forall|k: int|
                0 <= k < segs@.len() ==> spec_segment_ok(data@, #[trigger] segs@[k], base, win@.len() as int),
            spec_apply_segments(data@, segs@, i as int, win@, base) == spec_apply_segments(
                data@,
                segs@,
                0,
                old(win)@,
                base,
            ),
        decreases n - i,
    {
        let seg = segs[i];
        let ghost w0 = win@;
        proof {
            assert(spec_segment_ok(data@, segs@[i as int], base, win@.len() as int));
            assert(data@.len() <= usize::MAX);
        }
        let va: usize = seg.virt_addr as usize;
        let fo: usize = seg.file_offset as usize;
        let fsz: usize = seg.file_size as usize;
        let msz: usize = seg.mem_size as usize;
        let file_part = vstd::slice::slice_subrange(data, fo, fo + fsz);
        win.write_bytes(va, file_part);
        let ghost w1 = win@;
        if msz > fsz {
            win.fill_bytes(va + fsz, msz - fsz, 0);
            proof {
                let off: int = va - base;
                assert(w1.subrange(0, off + fsz) =~= w0.subrange(0, off) + file_part@);
                assert(w1.skip(off + msz) =~= w0.skip(off + msz));
                assert(win@ =~= spec_write(w0, off, spec_segment_bytes(data@, seg)));
            }
        } else {
            proof {
                assert(win@ =~= spec_write(w0, va - base, spec_segment_bytes(data@, seg)));
            }
        }
        i = i + 1;
    }
}

/// `(mm1, w1)` is the state after loading the image `c` over
/// `(mm0, w0)`: the window holds the segments' bytes, and the segments'
/// covering span is reserved (nothing changes when there is no loadable
/// segment).
pub open spec fn spec_loaded_state(
    c: Seq<u8>,
    mm0: MemoryManager,
    w0: Seq<u8>,
    base: int,
    mm1: MemoryManager,
    w1: Seq<u8>,
) -> bool {
    let h = spec_parse_header(c)->Ok_0;
    let segs = spec_load_segments(c, h, 0);
    &&& w1 == spec_apply_segments(c, segs, 0, w0, base)
    &&& (segs.len() == 0 ==> mm1 == mm0)
    &&& (segs.len() > 0 ==> mm0.spec_reserved(
        mm1,
        spec_span_lo(segs) as usize,
        (spec_span_hi(segs) - spec_span_lo(segs)) as usize,
    ))
}

/// Load an executable image: validate its header, check every loadable
/// segment against the image and the physical window, reserve the
/// segments' covering span with the memory manager, then copy each
/// segment to its virtual address and zero fill its tail. Returns the
/// entry address; on any error nothing is changed.
pub fn load(data: &[u8], mm: &mut MemoryManager, win: &mut MemoryWindow) -> (r: Result<
    usize,
    BootError,
>)
    requires
        old(mm).wf(),
        old(win).wf(),
    ensures
        final(mm).wf(),
        final(win).wf(),
        final(win).spec_base() == old(win).spec_base(),
        final(win)@.len() == old(win)@.len(),
        match spec_load_verdict(
            data@,
            *old(mm),
            old(win).spec_base() as int,
            old(win)@.len() as int,
        ) {
            Err(e) => r == Err::<usize, BootError>(e) && *final(mm) == *old(mm) && *final(win)
                == *old(win),
            Ok(entry) => r == Ok::<usize, BootError>(entry as usize) && spec_loaded_state(
                data@,
                *old(mm),
                old(win)@,
                old(win).spec_base() as int,
                *final(mm),
                final(win)@,
            ),
        },
{
    let h: ElfHeader = match parse_header(data) {
        Err(e) => {
            return Err(e);
        },
        Ok(x) => x,
    };
    if h.entry > usize::MAX as u64 {
        return Err(BootError::FormatInvalid);
    }
    let segs = collect_load_segments(data, &h);
    match check_segments(data, &segs, win) {
        Some(e) => {
            return Err(e);
        },
        None => (),
    }
    if segs.len() > 0 {
        proof {
            lemma_span_bounds(
                data@,
                segs@,
                win.spec_base() as int,
                win@.len() as int,
            );
        }
        let (lo, hi) = compute_span(&segs);
        match mm.reserve_region(lo, hi - lo) {
            Err(e) => {
                return Err(e);
            },
            Ok(()) => (),
        }
    }
    copy_segments(data, &segs, win);
    Ok(h.entry as usize)
}

/// The outcome of one kernel candidate path: read the file, then load it.
pub open spec fn spec_try_path(
    fs: Ext2Fs,
    d: Seq<u8>,
    pb: Seq<u8>,
    mm: MemoryManager,
    base: int,
    wlen: int,
) -> Result<u64, BootError> {
    match spec_read_file(fs, d, pb) {
        Err(e) => Err(e),
        Ok(c) => spec_load_verdict(c, mm, base, wlen),
    }
}

/// Try the compiled-in kernel candidate paths in order: the first whose
/// file reads and loads yields the entry address; when every candidate
/// fails, `NotFound`. A failed candidate changes nothing, so the state
/// reflects the one candidate that succeeded.
pub fn find_and_load_kernel(
    fs: &Ext2Fs,
    disk: &DiskImage,
    mm: &mut MemoryManager,
    win: &mut MemoryWindow,
) -> (r: Result<usize, BootError>)
    requires
        fs.wf(),
        old(mm).wf(),
        old(win).wf(),
    ensures
        final(mm).wf(),
        final(win).wf(),
        ({
            let base = old(win).spec_base() as int;
            let wlen = old(win)@.len() as int;
            let t1 = spec_try_path(
                *fs,
                disk@,
                "/EFI/BOOT/KERNEL.EFI".spec_bytes(),
                *old(mm),
                base,
                wlen,
            );
            let t2 = spec_try_path(*fs, disk@, "/kernel.elf".spec_bytes(), *old(mm), base, wlen);
            let t3 = spec_try_path(
                *fs,
                disk@,
                "/boot/kernel.elf".spec_bytes(),
                *old(mm),
                base,
                wlen,
            );
            match t1 {
                Ok(e1) => r == Ok::<usize, BootError>(e1 as usize) && spec_loaded_state(
                    spec_read_file(*fs, disk@, "/EFI/BOOT/KERNEL.EFI".spec_bytes())->Ok_0,
                    *old(mm),
                    old(win)@,
                    base,
                    *final(mm),
                    final(win)@,
                ),
                Err(_) => match t2 {
                    Ok(e2) => r == Ok::<usize, BootError>(e2 as usize) && spec_loaded_state(
                        spec_read_file(*fs, disk@, "/kernel.elf".spec_bytes())->Ok_0,
                        *old(mm),
                        old(win)@,
                        base,
                        *final(mm),
                        final(win)@,
                    ),
                    Err(_) => match t3 {
                        Ok(e3) => r == Ok::<usize, BootError>(e3 as usize) && spec_loaded_state(
                            spec_read_file(*fs, disk@, "/boot/kernel.elf".spec_bytes())->Ok_0,
                            *old(mm),
                            old(win)@,
                            base,
                            *final(mm),
                            final(win)@,
                        ),
                        Err(_) => r == Err::<usize, BootError>(BootError::NotFound) && *final(mm)
                            == *old(mm) && *final(win) == *old(win),
                    },
                },
            }
        }),
{
    match read_file(fs, disk, "/EFI/BOOT/KERNEL.EFI") {
        Err(_) => (),
        Ok(fb) => {
            match load(fb.as_slice(), mm, win) {
                Err(_) => (),
                Ok(entry) => {
                    return Ok(entry);
                },
            }
        },
    }
    match read_file(fs, disk, "/kernel.elf") {
        Err(_) => (),
        Ok(fb) => {
            match load(fb.as_slice(), mm, win) {
                Err(_) => (),
                Ok(entry) => {
                    return Ok(entry);
                },
            }
        },
    }
    match read_file(fs, disk, "/boot/kernel.elf") {
        Err(_) => (),
        Ok(fb) => {
            match load(fb.as_slice(), mm, win) {
                Err(_) => (),
                Ok(entry) => {
                    return Ok(entry);
                },
            }
        },
    }
    Err(BootError::NotFound)
}

} // verus!
