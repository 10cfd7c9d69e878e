use vstd::prelude::*;

use crate::device::DiskImage;
use crate::error::BootError;
use crate::le::{read_le16, read_le32, spec_le16, spec_le32};
use vstd::string::StringSliceAdditionalSpecFns;

verus! {

/// Magic number every supported filesystem carries in its superblock.
pub const EXT2_MAGIC: u16 = 0xEF53;

/// Incompatible-feature bit: extent trees.
pub const FEATURE_INCOMPAT_EXTENTS: u32 = 0x40;

/// Incompatible-feature bit: 64-bit block addressing.
pub const FEATURE_INCOMPAT_64BIT: u32 = 0x80;

/// Mode bit marking a regular file.
pub const EXT2_S_IFREG: u16 = 0x8000;

/// Mode bit marking a directory.
pub const EXT2_S_IFDIR: u16 = 0x4000;

/// Largest file the reader will hand back.
pub const MAX_FILE_SIZE: usize = 1048576;

/// Bytes in one block-group descriptor record.
pub const BGD_BYTES: usize = 32;

/// Number of the root directory's inode.
pub const ROOT_INODE: u32 = 2;

/// The consumed fields of the on-disk superblock.
#[derive(Copy, Clone, Debug, PartialEq, Eq, Structural)]
pub struct Ext2Superblock {
    pub inodes_count: u32,
    pub blocks_count: u32,
    pub first_data_block: u32,
    pub log_block_size: u32,
    pub blocks_per_group: u32,
    pub inodes_per_group: u32,
    pub magic: u16,
    pub rev_level: u32,
    pub inode_size: u16,
    pub feature_incompat: u32,
}

/// The consumed fields of one block-group descriptor.
#[derive(Copy, Clone, Debug, PartialEq, Eq, Structural)]
pub struct Ext2BlockGroupDescriptor {
    pub block_bitmap: u32,
    pub inode_bitmap: u32,
    pub inode_table: u32,
    pub free_blocks_count: u16,
    pub free_inodes_count: u16,
    pub used_dirs_count: u16,
}

/// The consumed fields of one on-disk inode record.
#[derive(Copy, Clone, Debug)]
pub struct Ext2Inode {
    pub mode: u16,
    pub size: u32,
    pub links_count: u16,
    pub blocks: u32,
    pub flags: u32,
    pub block: [u32; 15],
}

/// The mathematical content of an inode: what resolution and reading use.
pub struct InodeView {
    pub mode: u16,
    pub size: u32,
    pub links_count: u16,
    pub blocks: u32,
    pub flags: u32,
    pub block: Seq<u32>,
}

impl View for Ext2Inode {
    type V = InodeView;

    open spec fn view(&self) -> InodeView {
        InodeView {
            mode: self.mode,
            size: self.size,
            links_count: self.links_count,
            blocks: self.blocks,
            flags: self.flags,
            block: self.block@,
        }
    }
}

/// The filesystem context: partition base, cached superblock, and the
/// geometry derived from it at mount time.
#[derive(Copy, Clone, Debug)]
pub struct Ext2Fs {
    pub base_lba: u32,
    pub superblock: Ext2Superblock,
    pub block_size: usize,
    pub sectors_per_block: usize,
}

/// The superblock fields parsed from its 1024-byte on-disk record.
pub open spec fn spec_superblock(s: Seq<u8>) -> Ext2Superblock {
    Ext2Superblock {
        inodes_count: spec_le32(s, 0) as u32,
        blocks_count: spec_le32(s, 4) as u32,
        first_data_block: spec_le32(s, 20) as u32,
        log_block_size: spec_le32(s, 24) as u32,
        blocks_per_group: spec_le32(s, 32) as u32,
        inodes_per_group: spec_le32(s, 40) as u32,
        magic: spec_le16(s, 56) as u16,
        rev_level: spec_le32(s, 76) as u32,
        inode_size: spec_le16(s, 88) as u16,
        feature_incompat: spec_le32(s, 96) as u32,
    }
}

/// The block size selected by the superblock's exponent: 1024 shifted
/// left; only exponents up to 2 (4096-byte blocks) are supported.
pub open spec fn spec_block_size_of(log_block_size: u32) -> int {
    if log_block_size == 0 {
        1024
    } else if log_block_size == 1 {
        2048
    } else if log_block_size == 2 {
        4096
    } else {
        0
    }
}

impl Ext2Fs {
    /// Well-formedness: the cached geometry matches the cached superblock,
    /// whose magic and feature bits passed mount-time validation.
    pub open spec fn wf(self) -> bool {
        &&& self.superblock.magic == EXT2_MAGIC
        &&& self.superblock.feature_incompat & FEATURE_INCOMPAT_EXTENTS == 0
        &&& self.superblock.feature_incompat & FEATURE_INCOMPAT_64BIT == 0
        &&& self.superblock.log_block_size <= 2
        &&& self.block_size == spec_block_size_of(self.superblock.log_block_size)
        &&& self.sectors_per_block == self.block_size / 512
    }

    /// Byte offset of block `b` in the device image.
    pub open spec fn spec_block_offset(self, b: int) -> int {
        self.base_lba * 512 + b * self.block_size
    }

    /// Block `b` lies within the device image and its sector number fits
    /// the device's 32-bit addressing.
    pub open spec fn spec_block_in_range(self, d: Seq<u8>, b: int) -> bool {
        &&& self.base_lba + b * self.sectors_per_block <= u32::MAX
        &&& self.spec_block_offset(b) + self.block_size <= d.len()
    }

    /// The bytes of block `b`.
    pub open spec fn spec_block(self, d: Seq<u8>, b: int) -> Seq<u8> {
        d.subrange(self.spec_block_offset(b), self.spec_block_offset(b) + self.block_size)
    }

    /// The inode record size: 128 bytes unless a revision-1 superblock
    /// declares a sane extended size — at least 128, at most one block,
    /// 4-byte aligned.
    pub open spec fn spec_inode_size(self) -> int {
        let sz = self.superblock.inode_size as int;
        if self.superblock.rev_level >= 1 && sz >= 128 && sz <= self.block_size && sz % 4 == 0 {
            sz
        } else {
            128
        }
    }

    /// Descriptors per block of the group-descriptor table.
    pub open spec fn spec_descriptors_per_block(self) -> int {
        self.block_size as int / BGD_BYTES as int
    }

    /// Inode records per block of an inode table.
    pub open spec fn spec_inodes_per_block(self) -> int {
        self.block_size as int / self.spec_inode_size()
    }

    /// The block group that holds inode `n`.
    pub open spec fn spec_inode_group(self, n: u32) -> int {
        (n - 1) / self.superblock.inodes_per_group as int
    }

    /// The index of inode `n` within its group.
    pub open spec fn spec_inode_local(self, n: u32) -> int {
        (n - 1) % self.superblock.inodes_per_group as int
    }

    /// First block of the group-descriptor table: the block right after
    /// the superblock's own block.
    pub open spec fn spec_gdt_start(self) -> int {
        self.superblock.first_data_block + 1
    }

    /// The descriptor-table block that holds inode `n`'s group.
    pub open spec fn spec_gdt_block(self, n: u32) -> int {
        self.spec_gdt_start() + self.spec_inode_group(n) / self.spec_descriptors_per_block()
    }

    /// Byte offset of inode `n`'s group descriptor within that block.
    pub open spec fn spec_gdt_index(self, n: u32) -> int {
        (self.spec_inode_group(n) % self.spec_descriptors_per_block()) * BGD_BYTES as int
    }

    /// The descriptor of inode `n`'s group, as read from the device.
    pub open spec fn spec_group_descriptor(self, d: Seq<u8>, n: u32) -> Ext2BlockGroupDescriptor {
        spec_descriptor_at(self.spec_block(d, self.spec_gdt_block(n)), self.spec_gdt_index(n))
    }

    /// The inode-table block that holds inode `n`'s record.
    pub open spec fn spec_inode_block(self, d: Seq<u8>, n: u32) -> int {
        self.spec_group_descriptor(d, n).inode_table + self.spec_inode_local(n)
            / self.spec_inodes_per_block()
    }

    /// Byte offset of inode `n`'s record within that block.
    pub open spec fn spec_inode_byte_offset(self, n: u32) -> int {
        (self.spec_inode_local(n) % self.spec_inodes_per_block()) * self.spec_inode_size()
    }

    /// The record of inode `n`, as read from the device.
    pub open spec fn spec_inode_view(self, d: Seq<u8>, n: u32) -> InodeView {
        spec_inode_at(
            self.spec_block(d, self.spec_inode_block(d, n)),
            self.spec_inode_byte_offset(n),
        )
    }

    /// The whole outcome of inode resolution — a pure function of the
    /// superblock, the descriptor table, and the inode-table bytes.
    pub open spec fn spec_get_inode(self, d: Seq<u8>, n: u32) -> Result<InodeView, BootError> {
        if n == 0 || self.superblock.inodes_per_group == 0 {
            Err(BootError::FormatInvalid)
        } else if !self.spec_block_in_range(d, self.spec_gdt_block(n)) {
            Err(BootError::HardwareFault)
        } else if !self.spec_block_in_range(d, self.spec_inode_block(d, n)) {
            Err(BootError::HardwareFault)
        } else {
            Ok(self.spec_inode_view(d, n))
        }
    }
}

/// The descriptor fields at byte offset `off`.
pub open spec fn spec_descriptor_at(s: Seq<u8>, off: int) -> Ext2BlockGroupDescriptor {
    Ext2BlockGroupDescriptor {
        block_bitmap: spec_le32(s, off) as u32,
        inode_bitmap: spec_le32(s, off + 4) as u32,
        inode_table: spec_le32(s, off + 8) as u32,
        free_blocks_count: spec_le16(s, off + 12) as u16,
        free_inodes_count: spec_le16(s, off + 14) as u16,
        used_dirs_count: spec_le16(s, off + 16) as u16,
    }
}

/// The inode fields at byte offset `off`.
pub open spec fn spec_inode_at(s: Seq<u8>, off: int) -> InodeView {
    InodeView {
        mode: spec_le16(s, off) as u16,
        size: spec_le32(s, off + 4) as u32,
        links_count: spec_le16(s, off + 26) as u16,
        blocks: spec_le32(s, off + 28) as u32,
        flags: spec_le32(s, off + 32) as u32,
        block: Seq::new(15, |i: int| spec_le32(s, off + 40 + 4 * i) as u32),
    }
}

/// Parse the consumed superblock fields out of its on-disk record.
pub fn parse_superblock(buf: &[u8]) -> (sb: Ext2Superblock)
    requires
        buf@.len() >= 100,
    ensures
        sb == spec_superblock(buf@),
{
    Ext2Superblock {
        inodes_count: read_le32(buf, 0),
        blocks_count: read_le32(buf, 4),
        first_data_block: read_le32(buf, 20),
        log_block_size: read_le32(buf, 24),
        blocks_per_group: read_le32(buf, 32),
        inodes_per_group: read_le32(buf, 40),
        magic: read_le16(buf, 56),
        rev_level: read_le32(buf, 76),
        inode_size: read_le16(buf, 88),
        feature_incompat: read_le32(buf, 96),
    }
}

/// The verdict of mounting: which error `init_with_lba` returns for these
/// superblock bytes, or `None` when the mount is accepted.
pub open spec fn spec_mount_verdict(sb: Ext2Superblock) -> Option<BootError> {
    if sb.magic != EXT2_MAGIC {
        Some(BootError::FormatInvalid)
    } else if sb.feature_incompat & FEATURE_INCOMPAT_EXTENTS != 0 || sb.feature_incompat
        & FEATURE_INCOMPAT_64BIT != 0 {
        Some(BootError::Unsupported)
    } else if sb.log_block_size > 2 {
        Some(BootError::Unsupported)
    } else {
        None
    }
}

/// The superblock's 1024 bytes sit at byte offset 1024 from the partition
/// base, i.e. two sectors in.
pub open spec fn spec_superblock_bytes(d: Seq<u8>, lba_base: u32) -> Seq<u8> {
    d.subrange((lba_base + 2) * 512, (lba_base + 2) * 512 + 1024)
}

/// The superblock record is readable from the device.
pub open spec fn spec_superblock_readable(d: Seq<u8>, lba_base: u32) -> bool {
    lba_base + 2 <= u32::MAX && (lba_base + 2) * 512 + 1024 <= d.len()
}

/// Mount the filesystem that starts at absolute sector 0.
pub fn init(disk: &DiskImage) -> (r: Result<Ext2Fs, BootError>)
    ensures
        r is Ok ==> r->Ok_0.wf() && r->Ok_0.base_lba == 0,
        spec_superblock_readable(disk@, 0) ==> ({
            let sb = spec_superblock(spec_superblock_bytes(disk@, 0));
            match spec_mount_verdict(sb) {
                Some(e) => r == Err::<Ext2Fs, BootError>(e),
                None => r is Ok && r->Ok_0.superblock == sb,
            }
        }),
        !spec_superblock_readable(disk@, 0) ==> r == Err::<Ext2Fs, BootError>(
            BootError::HardwareFault,
        ),
{
    init_with_lba(disk, 0)
}

/// Mount the filesystem whose partition starts at sector `lba_base`:
/// read the superblock two sectors in, validate its magic, reject
/// unsupported feature bits and block sizes, and cache the geometry.
pub fn init_with_lba(disk: &DiskImage, lba_base: u32) -> (r: Result<Ext2Fs, BootError>)
    ensures
        r is Ok ==> r->Ok_0.wf() && r->Ok_0.base_lba == lba_base,
        spec_superblock_readable(disk@, lba_base) ==> ({
            let sb = spec_superblock(spec_superblock_bytes(disk@, lba_base));
            match spec_mount_verdict(sb) {
                Some(e) => r == Err::<Ext2Fs, BootError>(e),
                None => r is Ok && r->Ok_0.superblock == sb,
            }
        }),
        !spec_superblock_readable(disk@, lba_base) ==> r == Err::<Ext2Fs, BootError>(
            BootError::HardwareFault,
        ),
{
    if lba_base > u32::MAX - 2 {
        return Err(BootError::HardwareFault);
    }
    let mut buffer: Vec<u8> = zero_vec(1024);
    let lba: u32 = lba_base + 2;
    match disk.read_sectors(lba, 2, &mut buffer) {
        Ok(()) => (),
        Err(_) => {
            return Err(BootError::HardwareFault);
        },
    }
    proof {
        assert(buffer@ =~= spec_superblock_bytes(disk@, lba_base));
    }
    let superblock = parse_superblock(buffer.as_slice());
    if superblock.magic != EXT2_MAGIC {
        return Err(BootError::FormatInvalid);
    }
    let extents = superblock.feature_incompat & FEATURE_INCOMPAT_EXTENTS != 0;
    let has_64bit = superblock.feature_incompat & FEATURE_INCOMPAT_64BIT != 0;
    if extents || has_64bit {
        return Err(BootError::Unsupported);
    }
    if superblock.log_block_size > 2 {
        return Err(BootError::Unsupported);
    }
    let block_size: usize = if superblock.log_block_size == 0 {
        1024
    } else if superblock.log_block_size == 1 {
        2048
    } else {
        4096
    };
    let sectors_per_block: usize = block_size / 512;
    Ok(Ext2Fs { base_lba: lba_base, superblock, block_size, sectors_per_block })
}

/// A zeroed scratch vector of `n` bytes.
pub fn zero_vec(n: usize) -> (v: Vec<u8>)
    ensures
        v@ == Seq::<u8>::new(n as nat, |i: int| 0u8),
{
    let mut v: Vec<u8> = Vec::new();
    let mut i: usize = 0;
    while i < n
        invariant
            i <= n,
            v@ == Seq::<u8>::new(i as nat, |j: int| 0u8),
        decreases n - i,
    {
        v.push(0u8);
        proof {
            assert(v@ =~= Seq::<u8>::new((i + 1) as nat, |j: int| 0u8));
        }
        i = i + 1;
    }
    v
}

/// Read block `block_num` into the front of `buffer`, leaving the rest of
/// `buffer` unchanged. Fails with `ResourceExhausted` when `buffer` is
/// smaller than a block, and with `HardwareFault` when the block lies
/// outside the device.
pub fn read_block(fs: &Ext2Fs, disk: &DiskImage, block_num: u32, buffer: &mut Vec<u8>) -> (r:
    Result<(), BootError>)
    requires
        fs.wf(),
    ensures
        final(buffer)@.len() == old(buffer)@.len(),
        r is Ok <==> old(buffer)@.len() >= fs.block_size && fs.spec_block_in_range(
            disk@,
            block_num as int,
        ),
        r is Ok ==> final(buffer)@ == fs.spec_block(disk@, block_num as int) + old(buffer)@.skip(
            fs.block_size as int,
        ),
        r is Err ==> final(buffer)@ == old(buffer)@,
        r is Err ==> (r == Err::<(), BootError>(BootError::ResourceExhausted) <==> old(
            buffer,
        )@.len() < fs.block_size),
        r is Err && old(buffer)@.len() >= fs.block_size ==> r == Err::<(), BootError>(
            BootError::HardwareFault,
        ),
{
    if buffer.len() < fs.block_size {
        return Err(BootError::ResourceExhausted);
    }
    proof {
        assert(fs.sectors_per_block <= 8);
        vstd::arithmetic::mul::lemma_mul_upper_bound(
            block_num as int,
            0xFFFFFFFF,
            fs.sectors_per_block as int,
            8,
        );
    }
    let start64: u64 = (fs.base_lba as u64) + (block_num as u64) * (fs.sectors_per_block as u64);
    if start64 > u32::MAX as u64 {
        return Err(BootError::HardwareFault);
    }
    let start_sector: u32 = start64 as u32;
    let count: u16 = fs.sectors_per_block as u16;
    proof {
        assert(fs.sectors_per_block * 512 == fs.block_size);
        vstd::arithmetic::mul::lemma_mul_is_associative(
            block_num as int,
            fs.sectors_per_block as int,
            512,
        );
        assert((start_sector as int) * 512 == fs.spec_block_offset(block_num as int));
    }
    match disk.read_sectors(start_sector, count, buffer) {
        Ok(()) => {
            proof {
                assert(final(buffer)@ =~= fs.spec_block(disk@, block_num as int) + old(
                    buffer,
                )@.skip(fs.block_size as int));
            }
            Ok(())
        },
        Err(_) => {
            proof {
                assert(!fs.spec_block_in_range(disk@, block_num as int));
            }
            Err(BootError::HardwareFault)
        },
    }
}

/// A capped holding area for one file's bytes plus its logical length.
#[derive(Debug)]
pub struct FileBuffer {
    pub data: Vec<u8>,
    pub size: usize,
}

impl FileBuffer {
    /// Well-formedness: full capacity allocated, logical length within it.
    pub open spec fn wf(self) -> bool {
        self.data@.len() == MAX_FILE_SIZE && self.size <= MAX_FILE_SIZE
    }

    /// A fresh, zeroed buffer of the full 1 MiB capacity.
    pub fn new() -> (b: FileBuffer)
        ensures
            b.wf(),
            b.size == 0,
            b.data@ == Seq::<u8>::new(MAX_FILE_SIZE as nat, |i: int| 0u8),
    {
        FileBuffer { data: zero_vec(MAX_FILE_SIZE), size: 0 }
    }

    /// The file's bytes: the first `size` bytes of the holding area.
    pub fn as_slice(&self) -> (s: &[u8])
        requires
            self.wf(),
        ensures
            s@ == self.data@.subrange(0, self.size as int),
    {
        vstd::slice::slice_subrange(self.data.as_slice(), 0, self.size)
    }

    /// Overwrite `[pos, pos + n)` of the holding area with the first `n`
    /// bytes of `src`.
    pub fn write_at(&mut self, pos: usize, src: &[u8], n: usize)
        requires
            old(self).wf(),
            pos + n <= MAX_FILE_SIZE,
            n <= src@.len(),
        ensures
            final(self).wf(),
            final(self).size == old(self).size,
            final(self).data@ == old(self).data@.subrange(0, pos as int) + src@.subrange(
                0,
                n as int,
            ) + old(self).data@.skip(pos + n),
    {
        let mut i: usize = 0;
        while i < n
            invariant
                i <= n,
                n <= src@.len(),
                pos + n <= self.data@.len(),
                self.data@.len() <= usize::MAX,
                self.data@.len() == old(self).data@.len(),
                self.size == old(self).size,
                self.data@ == old(self).data@.subrange(0, pos as int) + src@.subrange(
                    0,
                    i as int,
                ) + old(self).data@.skip(pos + i),
            decreases n - i,
        {
            let b: u8 = src[i];
            self.data.set(pos + i, b);
            proof {
                assert(self.data@ =~= old(self).data@.subrange(0, pos as int) + src@.subrange(
                    0,
                    i + 1,
                ) + old(self).data@.skip(pos + i + 1));
            }
            i = i + 1;
        }
    }
}

/// Two byte sequences that agree on `[off, off + 128)` parse to the same
/// inode record.
proof fn lemma_inode_at_agree(s1: Seq<u8>, s2: Seq<u8>, off: int)
    requires
        0 <= off,
        off + 128 <= s1.len(),
        off + 128 <= s2.len(),
        forall|k: int| off <= k < off + 128 ==> s1[k] == s2[k],
    ensures
        spec_inode_at(s1, off) == spec_inode_at(s2, off),
{
    assert(spec_inode_at(s1, off).block =~= spec_inode_at(s2, off).block);
}

/// Parse the consumed inode fields at byte offset `off`.
fn parse_inode(buf: &[u8], off: usize) -> (ino: Ext2Inode)
    requires
        off + 128 <= buf@.len(),
    ensures
        ino@ == spec_inode_at(buf@, off as int),
{
    let n: usize = buf.len();
    let ino = Ext2Inode {
        mode: read_le16(buf, off),
        size: read_le32(buf, off + 4),
        links_count: read_le16(buf, off + 26),
        blocks: read_le32(buf, off + 28),
        flags: read_le32(buf, off + 32),
        block: [
            read_le32(buf, off + 40),
            read_le32(buf, off + 44),
            read_le32(buf, off + 48),
            read_le32(buf, off + 52),
            read_le32(buf, off + 56),
            read_le32(buf, off + 60),
            read_le32(buf, off + 64),
            read_le32(buf, off + 68),
            read_le32(buf, off + 72),
            read_le32(buf, off + 76),
            read_le32(buf, off + 80),
            read_le32(buf, off + 84),
            read_le32(buf, off + 88),
            read_le32(buf, off + 92),
            read_le32(buf, off + 96),
        ],
    };
    proof {
        assert(ino.block@ =~= Seq::new(15, |i: int| spec_le32(buf@, off + 40 + 4 * i) as u32));
    }
    ino
}

/// Resolve inode `inode_num` to its on-disk record: locate its group in
/// the descriptor table, then its record in the group's inode table.
///
/// The result is a pure function of the superblock, the descriptor table
/// and the inode-table bytes: repeated calls against unchanged backing
/// bytes return identical records.
pub fn get_inode(fs: &Ext2Fs, disk: &DiskImage, inode_num: u32) -> (r: Result<
    Ext2Inode,
    BootError,
>)
    requires
        fs.wf(),
    ensures
        match fs.spec_get_inode(disk@, inode_num) {
            Ok(v) => r is Ok && r->Ok_0@ == v,
            Err(e) => r == Err::<Ext2Inode, BootError>(e),
        },
{
    if inode_num == 0 {
        return Err(BootError::FormatInvalid);
    }
    let ipg: u32 = fs.superblock.inodes_per_group;
    if ipg == 0 {
        return Err(BootError::FormatInvalid);
    }
    let group: u32 = (inode_num - 1) / ipg;
    let local: u32 = (inode_num - 1) % ipg;
    let dpb: usize = fs.block_size / BGD_BYTES;
    let gdt64: u64 = (fs.superblock.first_data_block as u64) + 1 + (group as u64) / (dpb as u64);
    proof {
        assert(fs.sectors_per_block >= 2);
    }
    if gdt64 > u32::MAX as u64 {
        proof {
            let b = fs.spec_gdt_block(inode_num);
            assert(b <= b * fs.sectors_per_block) by (nonlinear_arith)
                requires
                    b >= 0,
                    fs.sectors_per_block >= 1,
            ;
        }
        return Err(BootError::HardwareFault);
    }
    let gdt_block: u32 = gdt64 as u32;
    let index_in_block: usize = ((group as usize) % dpb) * BGD_BYTES;
    proof {
        assert(dpb * BGD_BYTES == fs.block_size);
        assert(index_in_block + BGD_BYTES <= fs.block_size) by (nonlinear_arith)
            requires
                index_in_block == ((group as int) % (dpb as int)) * (BGD_BYTES as int),
                dpb * BGD_BYTES == fs.block_size,
                dpb >= 1,
                group >= 0,
        ;
    }
    let mut bgd_buffer: Vec<u8> = zero_vec(fs.block_size);
    read_block(fs, disk, gdt_block, &mut bgd_buffer)?;
    let inode_table: u32 = read_le32(bgd_buffer.as_slice(), index_in_block + 8);
    proof {
        assert(inode_table == fs.spec_group_descriptor(disk@, inode_num).inode_table);
    }
    let mut inode_size: usize = 128;
    if fs.superblock.rev_level >= 1 {
        let sz: usize = fs.superblock.inode_size as usize;
        if sz >= 128 && sz <= fs.block_size && sz % 4 == 0 {
            inode_size = sz;
        }
    }
    let ipb: usize = fs.block_size / inode_size;
    proof {
        vstd::arithmetic::div_mod::lemma_div_non_zero(fs.block_size as int, inode_size as int);
    }
    let inode_block64: u64 = (inode_table as u64) + (local as u64) / (ipb as u64);
    if inode_block64 > u32::MAX as u64 {
        proof {
            let b = fs.spec_inode_block(disk@, inode_num);
            assert(b <= b * fs.sectors_per_block) by (nonlinear_arith)
                requires
                    b >= 0,
                    fs.sectors_per_block >= 1,
            ;
        }
        return Err(BootError::HardwareFault);
    }
    let inode_block: u32 = inode_block64 as u32;
    let local_idx: usize = (local as usize) % ipb;
    proof {
        vstd::arithmetic::div_mod::lemma_fundamental_div_mod(
            fs.block_size as int,
            inode_size as int,
        );
        assert((local_idx as int) * (inode_size as int) + inode_size <= fs.block_size)
            by (nonlinear_arith)
            requires
                local_idx < ipb,
                ipb == fs.block_size as int / inode_size as int,
                (ipb as int) * (inode_size as int) <= fs.block_size,
                ipb >= 1,
                inode_size >= 1,
                local_idx >= 0,
        ;
    }
    let inode_offset: usize = local_idx * inode_size;
    let mut inode_buffer: Vec<u8> = zero_vec(fs.block_size);
    read_block(fs, disk, inode_block, &mut inode_buffer)?;
    let ino = parse_inode(inode_buffer.as_slice(), inode_offset);
    proof {
        lemma_inode_at_agree(
            inode_buffer@,
            fs.spec_block(disk@, fs.spec_inode_block(disk@, inode_num)),
            inode_offset as int,
        );
    }
    Ok(ino)
}

/// Scan the directory records of one block for `name`, starting at byte
/// offset `off`: the matching record's inode number, or `None`. A record
/// length or inode number of zero ends the scan of this block, and so
/// does a corrupt record — one that would cross the block boundary, or
/// whose header plus name would exceed its own record length.
pub open spec fn spec_dir_block_scan(data: Seq<u8>, bs: int, off: int, name: Seq<u8>) -> Option<
    u32,
>
    decreases bs - off,
{
    if off < 0 || off + 8 > bs {
        None
    } else {
        let ino = spec_le32(data, off);
        let rec_len = spec_le16(data, off + 4);
        let name_len = data[off + 6] as int;
        if ino == 0 || rec_len == 0 {
            None
        } else if rec_len < 8 || off + rec_len > bs {
            None
        } else if 8 + name_len > rec_len {
            None
        } else if data.subrange(off + 8, off + 8 + name_len) == name {
            Some(ino as u32)
        } else {
            spec_dir_block_scan(data, bs, off + rec_len, name)
        }
    }
}

/// Scan a directory's direct blocks for `name`, starting at pointer `i`.
/// A zero pointer ends the chain.
pub open spec fn spec_dir_direct_scan(
    fs: Ext2Fs,
    d: Seq<u8>,
    ino: InodeView,
    i: int,
    name: Seq<u8>,
) -> Result<Option<u32>, BootError>
    decreases 12 - i,
{
    if i < 0 || i >= 12 {
        Ok(None)
    } else {
        let b = ino.block[i];
        if b == 0 {
            Ok(None)
        } else if !fs.spec_block_in_range(d, b as int) {
            Err(BootError::HardwareFault)
        } else {
            match spec_dir_block_scan(
                fs.spec_block(d, b as int),
                fs.block_size as int,
                0,
                name,
            ) {
                Some(x) => Ok(Some(x)),
                None => spec_dir_direct_scan(fs, d, ino, i + 1, name),
            }
        }
    }
}

/// Scan the blocks named by a single-indirect block for `name`, starting
/// at pointer index `pi`. A zero pointer ends the chain.
pub open spec fn spec_dir_indirect_scan(
    fs: Ext2Fs,
    d: Seq<u8>,
    ind: Seq<u8>,
    pi: int,
    name: Seq<u8>,
) -> Result<Option<u32>, BootError>
    decreases fs.block_size / 4 - pi,
{
    if pi < 0 || pi >= fs.block_size as int / 4 {
        Ok(None)
    } else {
        let ptr = spec_le32(ind, 4 * pi);
        if ptr == 0 {
            Ok(None)
        } else if !fs.spec_block_in_range(d, ptr) {
            Err(BootError::HardwareFault)
        } else {
            match spec_dir_block_scan(fs.spec_block(d, ptr), fs.block_size as int, 0, name) {
                Some(x) => Ok(Some(x)),
                None => spec_dir_indirect_scan(fs, d, ind, pi + 1, name),
            }
        }
    }
}

/// The whole directory lookup: direct blocks first, then the
/// single-indirect chain if present; `NotFound` when no record matches.
pub open spec fn spec_find_in_dir(fs: Ext2Fs, d: Seq<u8>, ino: InodeView, name: Seq<u8>) -> Result<
    u32,
    BootError,
> {
    match spec_dir_direct_scan(fs, d, ino, 0, name) {
        Err(e) => Err(e),
        Ok(Some(x)) => Ok(x),
        Ok(None) => {
            if ino.block[12] == 0 {
                Err(BootError::NotFound)
            } else if !fs.spec_block_in_range(d, ino.block[12] as int) {
                Err(BootError::HardwareFault)
            } else {
                match spec_dir_indirect_scan(
                    fs,
                    d,
                    fs.spec_block(d, ino.block[12] as int),
                    0,
                    name,
                ) {
                    Err(e) => Err(e),
                    Ok(Some(x)) => Ok(x),
                    Ok(None) => Err(BootError::NotFound),
                }
            }
        },
    }
}

/// Byte-for-byte slice equality.
fn bytes_eq(a: &[u8], b: &[u8]) -> (r: bool)
    ensures
        r == (a@ == b@),
{
    if a.len() != b.len() {
        return false;
    }
    let n: usize = a.len();
    let mut i: usize = 0;
    while i < n
        invariant
            i <= n,
            n == a@.len(),
            n == b@.len(),
            forall|k: int| 0 <= k < i ==> a@[k] == b@[k],
        decreases n - i,
    {
        if a[i] != b[i] {
            return false;
        }
        i = i + 1;
    }
    proof {
        assert(a@ =~= b@);
    }
    true
}

/// Scan one directory block for `name`.
fn scan_dir_block(block: &[u8], name: &[u8]) -> (r: Option<u32>)
    ensures
        r == spec_dir_block_scan(block@, block@.len() as int, 0, name@),
{
    let bs: usize = block.len();
    let mut off: usize = 0;
    while bs >= 8 && off <= bs - 8
        invariant_except_break
            bs == block@.len(),
            off <= bs,
            spec_dir_block_scan(block@, bs as int, 0, name@) == spec_dir_block_scan(
                block@,
                bs as int,
                off as int,
                name@,
            ),
        ensures
            spec_dir_block_scan(block@, bs as int, 0, name@) is None,
        decreases bs - off,
    {
        let ino: u32 = read_le32(block, off);
        let rec_len: usize = read_le16(block, off + 4) as usize;
        let name_len: usize = block[off + 6] as usize;
        if ino == 0 || rec_len == 0 {
            break ;
        }
        if rec_len < 8 || rec_len > bs - off {
            break ;
        }
        let name_end: usize = 8 + name_len;
        if name_end > rec_len {
            break ;
        }
        let entry_name = vstd::slice::slice_subrange(block, off + 8, off + name_end);
        if bytes_eq(entry_name, name) {
            return Some(ino);
        }
        off = off + rec_len;
    }
    None
}

/// Scan the directory's direct blocks from pointer `i` on.
fn scan_dir_direct(fs: &Ext2Fs, disk: &DiskImage, ino: &Ext2Inode, i: usize, name: &[u8]) -> (r:
    Result<Option<u32>, BootError>)
    requires
        fs.wf(),
        i <= 12,
    ensures
        r == spec_dir_direct_scan(*fs, disk@, ino@, i as int, name@),
    decreases 12 - i,
{
    if i >= 12 {
        return Ok(None);
    }
    let b: u32 = ino.block[i];
    if b == 0 {
        return Ok(None);
    }
    let mut buf: Vec<u8> = zero_vec(fs.block_size);
    match read_block(fs, disk, b, &mut buf) {
        Err(_) => {
            return Err(BootError::HardwareFault);
        },
        Ok(()) => (),
    }
    let blk = vstd::slice::slice_subrange(buf.as_slice(), 0, fs.block_size);
    proof {
        assert(blk@ =~= fs.spec_block(disk@, b as int));
    }
    match scan_dir_block(blk, name) {
        Some(x) => Ok(Some(x)),
        None => scan_dir_direct(fs, disk, ino, i + 1, name),
    }
}

/// Scan the directory blocks named by the single-indirect block `ind`,
/// from pointer index `pi` on.
fn scan_dir_indirect(fs: &Ext2Fs, disk: &DiskImage, ind: &[u8], pi: usize, name: &[u8]) -> (r:
    Result<Option<u32>, BootError>)
    requires
        fs.wf(),
        ind@.len() == fs.block_size,
        pi <= fs.block_size / 4,
    ensures
        r == spec_dir_indirect_scan(*fs, disk@, ind@, pi as int, name@),
    decreases fs.block_size / 4 - pi,
{
    let ppb: usize = fs.block_size / 4;
    if pi >= ppb {
        return Ok(None);
    }
    let ptr: u32 = read_le32(ind, 4 * pi);
    if ptr == 0 {
        return Ok(None);
    }
    let mut buf: Vec<u8> = zero_vec(fs.block_size);
    match read_block(fs, disk, ptr, &mut buf) {
        Err(_) => {
            return Err(BootError::HardwareFault);
        },
        Ok(()) => (),
    }
    let blk = vstd::slice::slice_subrange(buf.as_slice(), 0, fs.block_size);
    proof {
        assert(blk@ =~= fs.spec_block(disk@, ptr as int));
    }
    match scan_dir_block(blk, name) {
        Some(x) => Ok(Some(x)),
        None => scan_dir_indirect(fs, disk, ind, pi + 1, name),
    }
}

/// Look `name` up in the directory `dir_inode`: scan its direct blocks,
/// then one level of indirection if present. Returns the matching
/// record's inode number, `NotFound` when no record matches.
pub fn find_file_in_directory(fs: &Ext2Fs, disk: &DiskImage, dir_inode: &Ext2Inode, name: &[u8])
    -> (r: Result<u32, BootError>)
    requires
        fs.wf(),
    ensures
        r == spec_find_in_dir(*fs, disk@, dir_inode@, name@),
{
    match scan_dir_direct(fs, disk, dir_inode, 0, name) {
        Err(e) => {
            return Err(e);
        },
        Ok(Some(x)) => {
            return Ok(x);
        },
        Ok(None) => (),
    }
    let b12: u32 = dir_inode.block[12];
    if b12 == 0 {
        return Err(BootError::NotFound);
    }
    let mut ind_buf: Vec<u8> = zero_vec(fs.block_size);
    match read_block(fs, disk, b12, &mut ind_buf) {
        Err(_) => {
            return Err(BootError::HardwareFault);
        },
        Ok(()) => (),
    }
    let ind = vstd::slice::slice_subrange(ind_buf.as_slice(), 0, fs.block_size);
    proof {
        assert(ind@ =~= fs.spec_block(disk@, b12 as int));
    }
    match scan_dir_indirect(fs, disk, ind, 0, name) {
        Err(e) => Err(e),
        Ok(Some(x)) => Ok(x),
        Ok(None) => Err(BootError::NotFound),
    }
}

/// How much of the current block belongs to the file: a whole block, or
/// the remainder up to `size`.
pub open spec fn spec_chunk(bs: int, have: int, size: int) -> int {
    if bs < size - have {
        bs
    } else {
        size - have
    }
}

/// Content gathered from the direct blocks, from pointer `i` on, appended
/// to `acc` until `size` bytes are gathered or a zero pointer ends the
/// chain.
pub open spec fn spec_read_direct(
    fs: Ext2Fs,
    d: Seq<u8>,
    ino: InodeView,
    i: int,
    acc: Seq<u8>,
    size: int,
) -> Result<Seq<u8>, BootError>
    decreases 12 - i,
{
    if i < 0 || i >= 12 || acc.len() >= size {
        Ok(acc)
    } else {
        let b = ino.block[i];
        if b == 0 {
            Ok(acc)
        } else if !fs.spec_block_in_range(d, b as int) {
            Err(BootError::HardwareFault)
        } else {
            spec_read_direct(
                fs,
                d,
                ino,
                i + 1,
                acc + fs.spec_block(d, b as int).take(
                    spec_chunk(fs.block_size as int, acc.len() as int, size),
                ),
                size,
            )
        }
    }
}

/// Content gathered from the blocks named by a single-indirect block,
/// from pointer index `pi` on.
pub open spec fn spec_read_indirect(
    fs: Ext2Fs,
    d: Seq<u8>,
    ind: Seq<u8>,
    pi: int,
    acc: Seq<u8>,
    size: int,
) -> Result<Seq<u8>, BootError>
    decreases fs.block_size / 4 - pi,
{
    if pi < 0 || pi >= fs.block_size as int / 4 || acc.len() >= size {
        Ok(acc)
    } else {
        let ptr = spec_le32(ind, 4 * pi);
        if ptr == 0 {
            Ok(acc)
        } else if !fs.spec_block_in_range(d, ptr) {
            Err(BootError::HardwareFault)
        } else {
            spec_read_indirect(
                fs,
                d,
                ind,
                pi + 1,
                acc + fs.spec_block(d, ptr).take(
                    spec_chunk(fs.block_size as int, acc.len() as int, size),
                ),
                size,
            )
        }
    }
}

/// Content gathered through a double-indirect block: each of its pointers
/// names a single-indirect block whose chain is read in turn.
pub open spec fn spec_read_double(
    fs: Ext2Fs,
    d: Seq<u8>,
    ind2: Seq<u8>,
    i: int,
    acc: Seq<u8>,
    size: int,
) -> Result<Seq<u8>, BootError>
    decreases fs.block_size / 4 - i,
{
    if i < 0 || i >= fs.block_size as int / 4 || acc.len() >= size {
        Ok(acc)
    } else {
        let ptr1 = spec_le32(ind2, 4 * i);
        if ptr1 == 0 {
            Ok(acc)
        } else if !fs.spec_block_in_range(d, ptr1) {
            Err(BootError::HardwareFault)
        } else {
            match spec_read_indirect(fs, d, fs.spec_block(d, ptr1), 0, acc, size) {
                Err(e) => Err(e),
                Ok(acc1) => spec_read_double(fs, d, ind2, i + 1, acc1, size),
            }
        }
    }
}

/// The single-indirect stage of reading a file: nothing to do when the
/// file is already complete or the pointer is absent.
pub open spec fn spec_read_single_stage(
    fs: Ext2Fs,
    d: Seq<u8>,
    ino: InodeView,
    acc: Seq<u8>,
    size: int,
) -> Result<Seq<u8>, BootError> {
    if acc.len() >= size || ino.block[12] == 0 {
        Ok(acc)
    } else if !fs.spec_block_in_range(d, ino.block[12] as int) {
        Err(BootError::HardwareFault)
    } else {
        spec_read_indirect(fs, d, fs.spec_block(d, ino.block[12] as int), 0, acc, size)
    }
}

/// The double-indirect stage of reading a file.
pub open spec fn spec_read_double_stage(
    fs: Ext2Fs,
    d: Seq<u8>,
    ino: InodeView,
    acc: Seq<u8>,
    size: int,
) -> Result<Seq<u8>, BootError> {
    if acc.len() >= size || ino.block[13] == 0 {
        Ok(acc)
    } else if !fs.spec_block_in_range(d, ino.block[13] as int) {
        Err(BootError::HardwareFault)
    } else {
        spec_read_double(fs, d, fs.spec_block(d, ino.block[13] as int), 0, acc, size)
    }
}

/// The whole content of the file behind `ino`: direct blocks, then one
/// single-indirect chain, then a double-indirect chain. A file over the
/// size cap is refused outright; one that would need the triple-indirect
/// pointer is refused as unsupported rather than truncated.
pub open spec fn spec_read_inode_data(fs: Ext2Fs, d: Seq<u8>, ino: InodeView) -> Result<
    Seq<u8>,
    BootError,
> {
    let size = ino.size as int;
    if size > MAX_FILE_SIZE {
        Err(BootError::ResourceExhausted)
    } else {
        match spec_read_direct(fs, d, ino, 0, Seq::empty(), size) {
            Err(e) => Err(e),
            Ok(a1) => match spec_read_single_stage(fs, d, ino, a1, size) {
                Err(e) => Err(e),
                Ok(a2) => match spec_read_double_stage(fs, d, ino, a2, size) {
                    Err(e) => Err(e),
                    Ok(a3) => if a3.len() < size {
                        Err(BootError::Unsupported)
                    } else {
                        Ok(a3)
                    },
                },
            },
        }
    }
}

/// Sequences that agree from `a` on also agree from any later point on.
proof fn lemma_skip_agree(s1: Seq<u8>, s2: Seq<u8>, a: int, b: int)
    requires
        0 <= a <= b <= s1.len(),
        s1.len() == s2.len(),
        s1.skip(a) == s2.skip(a),
    ensures
        s1.skip(b) == s2.skip(b),
{
    assert forall|k: int| 0 <= k < s1.len() - b implies s1.skip(b)[k] == s2.skip(b)[k] by {
        assert(s1.skip(a)[k + b - a] == s2.skip(a)[k + b - a]);
    }
    assert(s1.skip(b) =~= s2.skip(b));
}

/// Copy the direct blocks' content into `fb` starting at `pos`; returns
/// the new fill position.
fn read_direct_blocks(
    fs: &Ext2Fs,
    disk: &DiskImage,
    ino: &Ext2Inode,
    i: usize,
    size: usize,
    pos: usize,
    fb: &mut FileBuffer,
) -> (r: Result<usize, BootError>)
    requires
        fs.wf(),
        old(fb).wf(),
        i <= 12,
        pos <= size,
        size <= MAX_FILE_SIZE,
    ensures
        final(fb).wf(),
        final(fb).size == old(fb).size,
        match spec_read_direct(
            *fs,
            disk@,
            ino@,
            i as int,
            old(fb).data@.subrange(0, pos as int),
            size as int,
        ) {
            Ok(acc2) => r is Ok && r->Ok_0 == acc2.len() && pos <= acc2.len() <= size
                && final(fb).data@.subrange(0, acc2.len() as int) == acc2
                && final(fb).data@.skip(acc2.len() as int) == old(fb).data@.skip(
                acc2.len() as int),
            Err(e) => r == Err::<usize, BootError>(e),
        },
    decreases 12 - i,
{
    if i >= 12 || pos >= size {
        return Ok(pos);
    }
    let b: u32 = ino.block[i];
    if b == 0 {
        return Ok(pos);
    }
    let mut buf: Vec<u8> = zero_vec(fs.block_size);
    match read_block(fs, disk, b, &mut buf) {
        Err(_) => {
            return Err(BootError::HardwareFault);
        },
        Ok(()) => (),
    }
    let to_copy: usize = if fs.block_size < size - pos {
        fs.block_size
    } else {
        size - pos
    };
    fb.write_at(pos, buf.as_slice(), to_copy);
    proof {
        assert(fb.data@.subrange(0, pos + to_copy) =~= old(fb).data@.subrange(0, pos as int)
            + fs.spec_block(disk@, b as int).take(to_copy as int));
    }
    read_direct_blocks(fs, disk, ino, i + 1, size, pos + to_copy, fb)
}

/// Copy the single-indirect chain's content into `fb` starting at `pos`.
fn read_indirect_blocks(
    fs: &Ext2Fs,
    disk: &DiskImage,
    ind: &[u8],
    pi: usize,
    size: usize,
    pos: usize,
    fb: &mut FileBuffer,
) -> (r: Result<usize, BootError>)
    requires
        fs.wf(),
        old(fb).wf(),
        ind@.len() == fs.block_size,
        pi <= fs.block_size / 4,
        pos <= size,
        size <= MAX_FILE_SIZE,
    ensures
        final(fb).wf(),
        final(fb).size == old(fb).size,
        match spec_read_indirect(
            *fs,
            disk@,
            ind@,
            pi as int,
            old(fb).data@.subrange(0, pos as int),
            size as int,
        ) {
            Ok(acc2) => r is Ok && r->Ok_0 == acc2.len() && pos <= acc2.len() <= size
                && final(fb).data@.subrange(0, acc2.len() as int) == acc2
                && final(fb).data@.skip(acc2.len() as int) == old(fb).data@.skip(
                acc2.len() as int),
            Err(e) => r == Err::<usize, BootError>(e),
        },
    decreases fs.block_size / 4 - pi,
{
    let ppb: usize = fs.block_size / 4;
    if pi >= ppb || pos >= size {
        return Ok(pos);
    }
    let ptr: u32 = read_le32(ind, 4 * pi);
    if ptr == 0 {
        return Ok(pos);
    }
    let mut buf: Vec<u8> = zero_vec(fs.block_size);
    match read_block(fs, disk, ptr, &mut buf) {
        Err(_) => {
            return Err(BootError::HardwareFault);
        },
        Ok(()) => (),
    }
    let to_copy: usize = if fs.block_size < size - pos {
        fs.block_size
    } else {
        size - pos
    };
    fb.write_at(pos, buf.as_slice(), to_copy);
    proof {
        assert(fb.data@.subrange(0, pos + to_copy) =~= old(fb).data@.subrange(0, pos as int)
            + fs.spec_block(disk@, ptr as int).take(to_copy as int));
    }
    read_indirect_blocks(fs, disk, ind, pi + 1, size, pos + to_copy, fb)
}

/// Copy the double-indirect chains' content into `fb` starting at `pos`.
fn read_double_blocks(
    fs: &Ext2Fs,
    disk: &DiskImage,
    ind2: &[u8],
    i: usize,
    size: usize,
    pos: usize,
    fb: &mut FileBuffer,
) -> (r: Result<usize, BootError>)
    requires
        fs.wf(),
        old(fb).wf(),
        ind2@.len() == fs.block_size,
        i <= fs.block_size / 4,
        pos <= size,
        size <= MAX_FILE_SIZE,
    ensures
        final(fb).wf(),
        final(fb).size == old(fb).size,
        match spec_read_double(
            *fs,
            disk@,
            ind2@,
            i as int,
            old(fb).data@.subrange(0, pos as int),
            size as int,
        ) {
            Ok(acc2) => r is Ok && r->Ok_0 == acc2.len() && pos <= acc2.len() <= size
                && final(fb).data@.subrange(0, acc2.len() as int) == acc2
                && final(fb).data@.skip(acc2.len() as int) == old(fb).data@.skip(
                acc2.len() as int),
            Err(e) => r == Err::<usize, BootError>(e),
        },
    decreases fs.block_size / 4 - i,
{
    let ppb: usize = fs.block_size / 4;
    if i >= ppb || pos >= size {
        return Ok(pos);
    }
    let ptr1: u32 = read_le32(ind2, 4 * i);
    if ptr1 == 0 {
        return Ok(pos);
    }
    let mut buf: Vec<u8> = zero_vec(fs.block_size);
    match read_block(fs, disk, ptr1, &mut buf) {
        Err(_) => {
            return Err(BootError::HardwareFault);
        },
        Ok(()) => (),
    }
    let ind = vstd::slice::slice_subrange(buf.as_slice(), 0, fs.block_size);
    proof {
        assert(ind@ =~= fs.spec_block(disk@, ptr1 as int));
    }
    let pos1: usize = match read_indirect_blocks(fs, disk, ind, 0, size, pos, fb) {
        Err(e) => {
            return Err(e);
        },
        Ok(p) => p,
    };
    let ghost mid = fb.data@;
    let r = read_double_blocks(fs, disk, ind2, i + 1, size, pos1, fb);
    proof {
        match spec_read_double(
            *fs,
            disk@,
            ind2@,
            i as int,
            old(fb).data@.subrange(0, pos as int),
            size as int,
        ) {
            Ok(acc2) => {
                lemma_skip_agree(mid, old(fb).data@, pos1 as int, acc2.len() as int);
            },
            Err(_) => (),
        }
    }
    r
}

/// Read the whole content of the file behind `inode` into `buffer`,
/// setting its logical length to the inode's declared size.
pub fn read_inode_data(fs: &Ext2Fs, disk: &DiskImage, inode: &Ext2Inode, buffer: &mut FileBuffer)
    -> (r: Result<(), BootError>)
    requires
        fs.wf(),
        old(buffer).wf(),
    ensures
        final(buffer).wf(),
        match spec_read_inode_data(*fs, disk@, inode@) {
            Ok(content) => r is Ok && final(buffer).size == content.len()
                && final(buffer).data@.subrange(0, content.len() as int) == content,
            Err(e) => r == Err::<(), BootError>(e) && final(buffer).size == old(buffer).size,
        },
{
    let size: usize = inode.size as usize;
    if size > MAX_FILE_SIZE {
        return Err(BootError::ResourceExhausted);
    }
    proof {
        assert(old(buffer).data@.subrange(0, 0) =~= Seq::<u8>::empty());
    }
    let mut pos: usize = match read_direct_blocks(fs, disk, inode, 0, size, 0, buffer) {
        Err(e) => {
            return Err(e);
        },
        Ok(p) => p,
    };
    if pos < size {
        let b12: u32 = inode.block[12];
        if b12 != 0 {
            let mut ind_buf: Vec<u8> = zero_vec(fs.block_size);
            match read_block(fs, disk, b12, &mut ind_buf) {
                Err(_) => {
                    return Err(BootError::HardwareFault);
                },
                Ok(()) => (),
            }
            let ind = vstd::slice::slice_subrange(ind_buf.as_slice(), 0, fs.block_size);
            proof {
                assert(ind@ =~= fs.spec_block(disk@, b12 as int));
            }
            pos = match read_indirect_blocks(fs, disk, ind, 0, size, pos, buffer) {
                Err(e) => {
                    return Err(e);
                },
                Ok(p) => p,
            };
        }
    }
    if pos < size {
        let b13: u32 = inode.block[13];
        if b13 != 0 {
            let mut ind2_buf: Vec<u8> = zero_vec(fs.block_size);
            match read_block(fs, disk, b13, &mut ind2_buf) {
                Err(_) => {
                    return Err(BootError::HardwareFault);
                },
                Ok(()) => (),
            }
            let ind2 = vstd::slice::slice_subrange(ind2_buf.as_slice(), 0, fs.block_size);
            proof {
                assert(ind2@ =~= fs.spec_block(disk@, b13 as int));
            }
            pos = match read_double_blocks(fs, disk, ind2, 0, size, pos, buffer) {
                Err(e) => {
                    return Err(e);
                },
                Ok(p) => p,
            };
        }
    }
    if pos < size {
        return Err(BootError::Unsupported);
    }
    buffer.size = pos;
    Ok(())
}

/// One step of walking an absolute, slash-delimited path: `cur` is the
/// inode reached so far, `start` the beginning of the pending component,
/// `i` the scan position. At each component boundary the current inode
/// must be a directory unless the component is the last, and the
/// component is looked up in it.
pub open spec fn spec_resolve_loop(
    fs: Ext2Fs,
    d: Seq<u8>,
    pb: Seq<u8>,
    cur: u32,
    start: int,
    i: int,
) -> Result<u32, BootError>
    decreases pb.len() + 1 - i,
{
    if i < 0 || i > pb.len() {
        Ok(cur)
    } else if !(i == pb.len() || pb[i] == 47) {
        spec_resolve_loop(fs, d, pb, cur, start, i + 1)
    } else if i > start {
        match fs.spec_get_inode(d, cur) {
            Err(e) => Err(e),
            Ok(ino) => {
                if i < pb.len() && ino.mode & EXT2_S_IFDIR == 0 {
                    Err(BootError::FormatInvalid)
                } else {
                    match spec_find_in_dir(fs, d, ino, pb.subrange(start, i)) {
                        Err(e) => Err(e),
                        Ok(next) => spec_resolve_loop(fs, d, pb, next, i + 1, i + 1),
                    }
                }
            },
        }
    } else {
        spec_resolve_loop(fs, d, pb, cur, i + 1, i + 1)
    }
}

/// Resolve an absolute path (as bytes) to an inode number, starting at
/// the root inode. A path that does not begin with a slash is invalid.
pub open spec fn spec_resolve_path(fs: Ext2Fs, d: Seq<u8>, pb: Seq<u8>) -> Result<u32, BootError> {
    if pb.len() == 0 || pb[0] != 47 {
        Err(BootError::FormatInvalid)
    } else {
        spec_resolve_loop(fs, d, pb, ROOT_INODE, 1, 1)
    }
}

/// The whole outcome of `read_file`: resolve the path, require a regular
/// file, read its content.
pub open spec fn spec_read_file(fs: Ext2Fs, d: Seq<u8>, pb: Seq<u8>) -> Result<Seq<u8>, BootError> {
    match spec_resolve_path(fs, d, pb) {
        Err(e) => Err(e),
        Ok(n) => match fs.spec_get_inode(d, n) {
            Err(e) => Err(e),
            Ok(ino) => if ino.mode & EXT2_S_IFREG == 0 {
                Err(BootError::FormatInvalid)
            } else {
                spec_read_inode_data(fs, d, ino)
            },
        },
    }
}

/// Resolve an absolute slash-delimited path to an inode number, starting
/// at the root inode.
#[verifier::rlimit(100)]
pub fn resolve_path(fs: &Ext2Fs, disk: &DiskImage, path: &str) -> (r: Result<u32, BootError>)
    requires
        fs.wf(),
    ensures
        r == spec_resolve_path(*fs, disk@, path.spec_bytes()),
{
    let pb: &[u8] = path.as_bytes();
    let n: usize = pb.len();
    if n == 0 || pb[0] != 47 {
        return Err(BootError::FormatInvalid);
    }
    let mut cur: u32 = ROOT_INODE;
    let mut start: usize = 1;
    let mut i: usize = 1;
    while i < n
        invariant
            fs.wf(),
            n == pb@.len(),
            pb@ == path.spec_bytes(),
            pb@.len() > 0 && pb@[0] == 47,
            1 <= i <= n,
            start <= i,
            spec_resolve_loop(*fs, disk@, pb@, cur, start as int, i as int) == spec_resolve_path(
                *fs,
                disk@,
                pb@,
            ),
        decreases n - i,
    {
        if pb[i] == 47 {
            if i > start {
                let inode: Ext2Inode = match get_inode(fs, disk, cur) {
                    Err(e) => {
                        return Err(e);
                    },
                    Ok(x) => x,
                };
                if inode.mode & EXT2_S_IFDIR == 0 {
                    return Err(BootError::FormatInvalid);
                }
                let comp = vstd::slice::slice_subrange(pb, start, i);
                cur = match find_file_in_directory(fs, disk, &inode, comp) {
                    Err(e) => {
                        return Err(e);
                    },
                    Ok(x) => x,
                };
            }
            start = i + 1;
        }
        i = i + 1;
    }
    if n > start {
        let inode: Ext2Inode = match get_inode(fs, disk, cur) {
            Err(e) => {
                return Err(e);
            },
            Ok(x) => x,
        };
        let comp = vstd::slice::slice_subrange(pb, start, n);
        let next: u32 = match find_file_in_directory(fs, disk, &inode, comp) {
            Err(e) => {
                return Err(e);
            },
            Ok(x) => x,
        };
        proof {
            assert(spec_resolve_loop(*fs, disk@, pb@, next, n + 1, n + 1) == Ok::<
                u32,
                BootError,
            >(next));
        }
        cur = next;
    } else {
        proof {
            assert(spec_resolve_loop(*fs, disk@, pb@, cur, n + 1, n + 1) == Ok::<u32, BootError>(
                cur,
            ));
        }
    }
    Ok(cur)
}

/// Read a file by absolute slash-delimited path. Success yields a buffer
/// whose logical length is the inode's declared size and whose bytes are
/// the file's content.
pub fn read_file(fs: &Ext2Fs, disk: &DiskImage, path: &str) -> (r: Result<FileBuffer, BootError>)
    requires
        fs.wf(),
    ensures
        match spec_read_file(*fs, disk@, path.spec_bytes()) {
            Ok(content) => r is Ok && r->Ok_0.wf() && r->Ok_0.size == content.len()
                && r->Ok_0.data@.subrange(0, content.len() as int) == content,
            Err(e) => r == Err::<FileBuffer, BootError>(e),
        },
{
    let cur: u32 = match resolve_path(fs, disk, path) {
        Err(e) => {
            return Err(e);
        },
        Ok(x) => x,
    };
    let file_inode: Ext2Inode = match get_inode(fs, disk, cur) {
        Err(e) => {
            return Err(e);
        },
        Ok(x) => x,
    };
    if file_inode.mode & EXT2_S_IFREG == 0 {
        return Err(BootError::FormatInvalid);
    }
    let mut file_buffer = FileBuffer::new();
    match read_inode_data(fs, disk, &file_inode, &mut file_buffer) {
        Err(e) => Err(e),
        Ok(()) => Ok(file_buffer),
    }
}

/// The geometry of inode `inode_num`: its block group, its index within
/// the group, and the first block of the group-descriptor table.
pub fn inode_geometry(fs: &Ext2Fs, inode_num: u32) -> (r: (u32, u32, u64))
    requires
        fs.wf(),
        inode_num >= 1,
        fs.superblock.inodes_per_group != 0,
    ensures
        r.0 == fs.spec_inode_group(inode_num),
        r.1 == fs.spec_inode_local(inode_num),
        r.2 == fs.spec_gdt_start(),
{
    let group: u32 = (inode_num - 1) / fs.superblock.inodes_per_group;
    let local: u32 = (inode_num - 1) % fs.superblock.inodes_per_group;
    let gdt_start: u64 = (fs.superblock.first_data_block as u64) + 1;
    (group, local, gdt_start)
}

proof fn lemma_read_direct_full(fs: Ext2Fs, d: Seq<u8>, ino: InodeView, i: int, acc: Seq<u8>)
    requires
        fs.wf(),
        0 <= i <= 12,
        ino.block.len() == 15,
        acc.len() == if i * fs.block_size < ino.size {
            i * fs.block_size
        } else {
            ino.size as int
        },
        forall|k: int|
            0 <= k < 12 && #[trigger] (k * fs.block_size) < ino.size ==> ino.block[k] != 0
                && fs.spec_block_in_range(d, ino.block[k] as int),
        forall|j: int|
            0 <= j < acc.len() ==> acc[j] == fs.spec_block(
                d,
                ino.block[j / fs.block_size as int] as int,
            )[j % fs.block_size as int],
    ensures
        spec_read_direct(fs, d, ino, i, acc, ino.size as int) is Ok,
        ({
            let out = spec_read_direct(fs, d, ino, i, acc, ino.size as int)->Ok_0;
            &&& out.len() == if 12 * fs.block_size < ino.size {
                12 * fs.block_size
            } else {
                ino.size as int
            }
            &&& forall|j: int|
                0 <= j < out.len() ==> out[j] == fs.spec_block(
                    d,
                    ino.block[j / fs.block_size as int] as int,
                )[j % fs.block_size as int]
        }),
    decreases 12 - i,
{
    let bs = fs.block_size as int;
    let size = ino.size as int;
    if acc.len() >= size {
        vstd::arithmetic::mul::lemma_mul_inequality(i, 12, bs);
    } else if i == 12 {
    } else {
        assert(i * bs < size);
        let b = ino.block[i];
        assert(b != 0 && fs.spec_block_in_range(d, b as int));
        let to_copy = spec_chunk(bs, acc.len() as int, size);
        let blk = fs.spec_block(d, b as int);
        let acc2 = acc + blk.take(to_copy);
        assert((i + 1) * bs == i * bs + bs) by (nonlinear_arith);
        assert(acc2.len() == if (i + 1) * bs < size {
            (i + 1) * bs
        } else {
            size
        });
        assert forall|j: int| acc.len() <= j < acc2.len() implies acc2[j] == fs.spec_block(
            d,
            ino.block[j / bs] as int,
        )[j % bs] by {
            vstd::arithmetic::div_mod::lemma_fundamental_div_mod_converse(j, bs, i, j - i * bs);
            assert(acc2[j] == blk.take(to_copy)[j - acc.len()]);
            assert(blk.take(to_copy)[j - i * bs] == blk[j - i * bs]);
        }
        lemma_read_direct_full(fs, d, ino, i + 1, acc2);
    }
}

proof fn lemma_read_indirect_full(fs: Ext2Fs, d: Seq<u8>, ind: Seq<u8>, pi: int, acc: Seq<u8>, size: int)
    requires
        fs.wf(),
        0 <= pi <= fs.block_size as int / 4,
        size > 12 * fs.block_size,
        acc.len() == ({
            let l = 12 * fs.block_size + pi * fs.block_size;
            if l < size {
                l
            } else {
                size
            }
        }),
        forall|k: int|
            pi <= k < fs.block_size as int / 4 && #[trigger] (12 * fs.block_size + k
                * fs.block_size) < size ==> spec_le32(ind, 4 * k) != 0 && fs.spec_block_in_range(
                d,
                spec_le32(ind, 4 * k),
            ),
    ensures
        spec_read_indirect(fs, d, ind, pi, acc, size) is Ok,
        ({
            let out = spec_read_indirect(fs, d, ind, pi, acc, size)->Ok_0;
            let full = 12 * fs.block_size + (fs.block_size as int / 4) * fs.block_size;
            &&& out.len() == if full < size {
                full
            } else {
                size
            }
            &&& forall|j: int| 0 <= j < acc.len() ==> out[j] == acc[j]
            &&& forall|j: int|
                acc.len() <= j < out.len() ==> out[j] == fs.spec_block(
                    d,
                    spec_le32(ind, 4 * ((j - 12 * fs.block_size) / fs.block_size as int)),
                )[j % fs.block_size as int]
        }),
    decreases fs.block_size / 4 - pi,
{
    let bs = fs.block_size as int;
    let ppb = bs / 4;
    if acc.len() >= size {
        vstd::arithmetic::mul::lemma_mul_inequality(pi, ppb, bs);
    } else if pi == ppb {
    } else {
        let l = acc.len() as int;
        assert(12 * bs + pi * bs < size);
        let ptr = spec_le32(ind, 4 * pi);
        assert(ptr != 0 && fs.spec_block_in_range(d, ptr));
        let to_copy = spec_chunk(bs, l, size);
        let blk = fs.spec_block(d, ptr);
        let acc2 = acc + blk.take(to_copy);
        assert((pi + 1) * bs == pi * bs + bs) by (nonlinear_arith);
        assert(acc2.len() == ({
            let l2 = 12 * bs + (pi + 1) * bs;
            if l2 < size {
                l2
            } else {
                size
            }
        }));
        assert forall|j: int| l <= j < acc2.len() implies acc2[j] == fs.spec_block(
            d,
            spec_le32(ind, 4 * ((j - 12 * bs) / bs)),
        )[j % bs] by {
            assert((12 + pi) * bs == 12 * bs + pi * bs) by (nonlinear_arith);
            vstd::arithmetic::div_mod::lemma_fundamental_div_mod_converse(
                j - 12 * bs,
                bs,
                pi,
                j - 12 * bs - pi * bs,
            );
            vstd::arithmetic::div_mod::lemma_fundamental_div_mod_converse(
                j,
                bs,
                12 + pi,
                j - 12 * bs - pi * bs,
            );
            assert(acc2[j] == blk.take(to_copy)[j - l]);
            assert(blk.take(to_copy)[j - l] == blk[j - l]);
        }
        lemma_read_indirect_full(fs, d, ind, pi + 1, acc2, size);
    }
}

proof fn lemma_read_direct_le(fs: Ext2Fs, d: Seq<u8>, ino: InodeView, i: int, acc: Seq<u8>, size: int)
    requires
        acc.len() <= size,
    ensures
        spec_read_direct(fs, d, ino, i, acc, size) is Ok ==> spec_read_direct(
            fs,
            d,
            ino,
            i,
            acc,
            size,
        )->Ok_0.len() <= size,
    decreases 12 - i,
{
    if !(i < 0 || i >= 12 || acc.len() >= size) {
        let b = ino.block[i];
        if b != 0 && fs.spec_block_in_range(d, b as int) {
            let acc2 = acc + fs.spec_block(d, b as int).take(
                spec_chunk(fs.block_size as int, acc.len() as int, size),
            );
            lemma_read_direct_le(fs, d, ino, i + 1, acc2, size);
        }
    }
}

proof fn lemma_read_indirect_le(fs: Ext2Fs, d: Seq<u8>, ind: Seq<u8>, pi: int, acc: Seq<u8>, size: int)
    requires
        acc.len() <= size,
    ensures
        spec_read_indirect(fs, d, ind, pi, acc, size) is Ok ==> spec_read_indirect(
            fs,
            d,
            ind,
            pi,
            acc,
            size,
        )->Ok_0.len() <= size,
    decreases fs.block_size / 4 - pi,
{
    if !(pi < 0 || pi >= fs.block_size as int / 4 || acc.len() >= size) {
        let ptr = spec_le32(ind, 4 * pi);
        if ptr != 0 && fs.spec_block_in_range(d, ptr) {
            let acc2 = acc + fs.spec_block(d, ptr).take(
                spec_chunk(fs.block_size as int, acc.len() as int, size),
            );
            lemma_read_indirect_le(fs, d, ind, pi + 1, acc2, size);
        }
    }
}

proof fn lemma_read_double_le(fs: Ext2Fs, d: Seq<u8>, ind2: Seq<u8>, i: int, acc: Seq<u8>, size: int)
    requires
        acc.len() <= size,
    ensures
        spec_read_double(fs, d, ind2, i, acc, size) is Ok ==> spec_read_double(
            fs,
            d,
            ind2,
            i,
            acc,
            size,
        )->Ok_0.len() <= size,
    decreases fs.block_size / 4 - i,
{
    if !(i < 0 || i >= fs.block_size as int / 4 || acc.len() >= size) {
        let ptr1 = spec_le32(ind2, 4 * i);
        if ptr1 != 0 && fs.spec_block_in_range(d, ptr1) {
            lemma_read_indirect_le(fs, d, fs.spec_block(d, ptr1), 0, acc, size);
            match spec_read_indirect(fs, d, fs.spec_block(d, ptr1), 0, acc, size) {
                Err(_) => (),
                Ok(acc1) => {
                    lemma_read_double_le(fs, d, ind2, i + 1, acc1, size);
                },
            }
        }
    }
}

/// Law: reading never truncates. Whenever `read_inode_data` succeeds,
/// the content has exactly the inode's declared size; a file whose
/// pointer chains fall short of its size — one that would need the
/// triple-indirect pointer — is refused as `Unsupported`, never returned
/// short.
pub proof fn lemma_no_truncation(fs: Ext2Fs, d: Seq<u8>, ino: InodeView)
    ensures
        spec_read_inode_data(fs, d, ino) is Ok ==> spec_read_inode_data(
            fs,
            d,
            ino,
        )->Ok_0.len() == ino.size,
{
    let size = ino.size as int;
    if size <= MAX_FILE_SIZE {
        lemma_read_direct_le(fs, d, ino, 0, Seq::empty(), size);
        match spec_read_direct(fs, d, ino, 0, Seq::empty(), size) {
            Err(_) => (),
            Ok(a1) => {
                if a1.len() < size && ino.block[12] != 0 && fs.spec_block_in_range(
                    d,
                    ino.block[12] as int,
                ) {
                    lemma_read_indirect_le(
                        fs,
                        d,
                        fs.spec_block(d, ino.block[12] as int),
                        0,
                        a1,
                        size,
                    );
                }
                match spec_read_single_stage(fs, d, ino, a1, size) {
                    Err(_) => (),
                    Ok(a2) => {
                        if a2.len() < size && ino.block[13] != 0 && fs.spec_block_in_range(
                            d,
                            ino.block[13] as int,
                        ) {
                            lemma_read_double_le(
                                fs,
                                d,
                                fs.spec_block(d, ino.block[13] as int),
                                0,
                                a2,
                                size,
                            );
                        }
                    },
                }
            },
        }
    }
}

/// Law: a file that fits entirely in its direct blocks reads back
/// exactly: when every needed direct pointer is present and readable,
/// reading succeeds, the content's length is the inode's declared size —
/// not the buffer capacity — and byte `j` of the content is byte
/// `j % block_size` of direct block `j / block_size`.
pub proof fn lemma_direct_round_trip(fs: Ext2Fs, d: Seq<u8>, ino: InodeView)
    requires
        fs.wf(),
        ino.block.len() == 15,
        ino.size <= 12 * fs.block_size,
        forall|k: int|
            0 <= k < 12 && #[trigger] (k * fs.block_size) < ino.size ==> ino.block[k] != 0
                && fs.spec_block_in_range(d, ino.block[k] as int),
    ensures
        spec_read_inode_data(fs, d, ino) is Ok,
        ({
            let content = spec_read_inode_data(fs, d, ino)->Ok_0;
            &&& content.len() == ino.size
            &&& forall|j: int|
                0 <= j < content.len() ==> content[j] == fs.spec_block(
                    d,
                    ino.block[j / fs.block_size as int] as int,
                )[j % fs.block_size as int]
        }),
{
    lemma_read_direct_full(fs, d, ino, 0, Seq::empty());
}

/// Law: a file that reaches into its single-indirect chain — up to the
/// boundary where direct blocks plus one full chain are exactly filled —
/// reads back completely, never truncated: when the twelve direct
/// pointers and every needed chain pointer are present and readable,
/// reading succeeds, the content's length is the inode's declared size,
/// its first twelve blocks come from the direct pointers, and the rest
/// from the chain's pointers in order.
pub proof fn lemma_single_indirect_round_trip(fs: Ext2Fs, d: Seq<u8>, ino: InodeView)
    requires
        fs.wf(),
        ino.block.len() == 15,
        ino.size <= MAX_FILE_SIZE,
        12 * fs.block_size < ino.size,
        ino.size <= 12 * fs.block_size + (fs.block_size as int / 4) * fs.block_size,
        forall|k: int|
            0 <= k < 12 ==> ino.block[k] != 0 && fs.spec_block_in_range(
                d,
                #[trigger] ino.block[k] as int,
            ),
        ino.block[12] != 0,
        fs.spec_block_in_range(d, ino.block[12] as int),
        forall|k: int|
            0 <= k < fs.block_size as int / 4 && #[trigger] (12 * fs.block_size + k
                * fs.block_size) < ino.size ==> spec_le32(
                fs.spec_block(d, ino.block[12] as int),
                4 * k,
            ) != 0 && fs.spec_block_in_range(
                d,
                spec_le32(fs.spec_block(d, ino.block[12] as int), 4 * k),
            ),
    ensures
        spec_read_inode_data(fs, d, ino) is Ok,
        ({
            let content = spec_read_inode_data(fs, d, ino)->Ok_0;
            let bs = fs.block_size as int;
            let ind = fs.spec_block(d, ino.block[12] as int);
            &&& content.len() == ino.size
            &&& forall|j: int|
                0 <= j < 12 * bs ==> content[j] == fs.spec_block(d, ino.block[j / bs] as int)[j
                    % bs]
            &&& forall|j: int|
                12 * bs <= j < content.len() ==> content[j] == fs.spec_block(
                    d,
                    spec_le32(ind, 4 * ((j - 12 * bs) / bs)),
                )[j % bs]
        }),
{
    let bs = fs.block_size as int;
    let size = ino.size as int;
    assert forall|k: int|
        0 <= k < 12 && #[trigger] (k * fs.block_size) < ino.size implies ino.block[k] != 0
        && fs.spec_block_in_range(d, ino.block[k] as int) by {
        assert(ino.block[k] != 0 && fs.spec_block_in_range(d, ino.block[k] as int));
    }
    lemma_read_direct_full(fs, d, ino, 0, Seq::empty());
    let a1 = spec_read_direct(fs, d, ino, 0, Seq::empty(), size)->Ok_0;
    assert(a1.len() == 12 * bs);
    let ind = fs.spec_block(d, ino.block[12] as int);
    lemma_read_indirect_full(fs, d, ind, 0, a1, size);
    let a2 = spec_read_indirect(fs, d, ind, 0, a1, size)->Ok_0;
    assert(a2.len() == size);
    assert(spec_read_single_stage(fs, d, ino, a1, size) == Ok::<Seq<u8>, BootError>(a2));
    assert(spec_read_double_stage(fs, d, ino, a2, size) == Ok::<Seq<u8>, BootError>(a2));
}

/// Law: inode resolution is a pure function of the superblock, the
/// descriptor table, and the inode-table bytes. Two device states that
/// agree on the descriptor-table block and on the inode-table block of
/// inode `n` — even if every other byte differs — resolve `n` to the
/// same record, so repeated calls against unchanged backing bytes return
/// identical results.
pub proof fn lemma_inode_resolution_pure(fs: Ext2Fs, d1: Seq<u8>, d2: Seq<u8>, n: u32)
    requires
        n != 0,
        fs.superblock.inodes_per_group != 0,
        fs.spec_block_in_range(d1, fs.spec_gdt_block(n)),
        fs.spec_block_in_range(d2, fs.spec_gdt_block(n)),
        fs.spec_block(d1, fs.spec_gdt_block(n)) == fs.spec_block(d2, fs.spec_gdt_block(n)),
        fs.spec_block_in_range(d1, fs.spec_inode_block(d1, n)),
        fs.spec_block_in_range(d2, fs.spec_inode_block(d2, n)),
        fs.spec_block(d1, fs.spec_inode_block(d1, n)) == fs.spec_block(
            d2,
            fs.spec_inode_block(d2, n),
        ),
    ensures
        fs.spec_get_inode(d1, n) == fs.spec_get_inode(d2, n),
{
    assert(fs.spec_group_descriptor(d1, n) == fs.spec_group_descriptor(d2, n));
    assert(fs.spec_inode_block(d1, n) == fs.spec_inode_block(d2, n));
    assert(fs.spec_inode_view(d1, n).block =~= fs.spec_inode_view(d2, n).block);
}

/// Law: two paths that resolve to the same inode yield byte-identical
/// file contents and lengths.
pub proof fn lemma_same_inode_same_content(fs: Ext2Fs, d: Seq<u8>, p1: Seq<u8>, p2: Seq<u8>)
    requires
        spec_resolve_path(fs, d, p1) is Ok,
        spec_resolve_path(fs, d, p2) is Ok,
        spec_resolve_path(fs, d, p1) == spec_resolve_path(fs, d, p2),
    ensures
        spec_read_file(fs, d, p1) == spec_read_file(fs, d, p2),
{
}

} // verus!
