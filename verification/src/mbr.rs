use vstd::prelude::*;
use vstd::string::StringExecFns;

use crate::device::DiskImage;
use crate::error::BootError;
use crate::le::{read_le32, spec_le16, spec_le32};
use crate::text::{append_dec, hex8, spec_dec_text, spec_hex8_text};

verus! {

/// Size of the partition-table sector.
pub const MBR_BYTES: usize = 512;

/// Expected trailing signature, read as a little-endian word.
pub const MBR_SIGNATURE: u16 = 0xAA55;

/// Byte offset of the four partition records in the sector.
pub const PARTITION_TABLE_OFFSET: usize = 446;

/// Number of partition records in the table.
pub const PARTITION_ENTRY_COUNT: usize = 4;

/// Bytes in one on-disk partition record.
pub const PARTITION_ENTRY_BYTES: usize = 16;

/// One on-disk partition record, field for field.
#[derive(Copy, Clone, Debug)]
pub struct RawPartitionEntry {
    pub boot_indicator: u8,
    pub starting_chs: [u8; 3],
    pub partition_type: u8,
    pub ending_chs: [u8; 3],
    pub starting_lba: u32,
    pub sectors: u32,
}

/// A populated partition record, reduced to the fields the pipeline uses.
#[derive(Copy, Clone, Debug, PartialEq, Eq, Structural)]
pub struct PartitionEntry {
    pub bootable: bool,
    pub partition_type: u8,
    pub starting_lba: u32,
    pub sectors: u32,
}

/// The parsed partition table: signature verdict plus four optional slots.
#[derive(Clone, Debug)]
pub struct MbrInfo {
    pub signature_valid: bool,
    pub partitions: [Option<PartitionEntry>; 4],
}

/// The trailing two-byte signature of the sector matches `MBR_SIGNATURE`.
pub open spec fn spec_signature_valid(s: Seq<u8>) -> bool {
    s.len() >= MBR_BYTES && spec_le16(s, MBR_BYTES - 2) == MBR_SIGNATURE
}

/// Byte offset of partition record `i`.
pub open spec fn spec_entry_offset(i: int) -> int {
    PARTITION_TABLE_OFFSET + i * PARTITION_ENTRY_BYTES
}

/// Record `i` lies within the buffer and is populated: a non-zero type
/// code and a non-zero sector count.
pub open spec fn spec_entry_present(s: Seq<u8>, i: int) -> bool {
    let o = spec_entry_offset(i);
    &&& o + PARTITION_ENTRY_BYTES <= s.len()
    &&& s[o + 4] != 0
    &&& spec_le32(s, o + 12) != 0
}

/// The fields of record `i`, as a `PartitionEntry`.
pub open spec fn spec_entry(s: Seq<u8>, i: int) -> PartitionEntry {
    let o = spec_entry_offset(i);
    PartitionEntry {
        bootable: s[o] == 0x80,
        partition_type: s[o + 4],
        starting_lba: spec_le32(s, o + 8) as u32,
        sectors: spec_le32(s, o + 12) as u32,
    }
}

/// The four parsed slots: a populated record parses to `Some`, an absent
/// or out-of-range one to `None`.
pub open spec fn spec_parse_partitions(s: Seq<u8>) -> Seq<Option<PartitionEntry>> {
    Seq::new(
        PARTITION_ENTRY_COUNT as nat,
        |i: int|
            if spec_entry_present(s, i) {
                Some(spec_entry(s, i))
            } else {
                None
            },
    )
}

/// Read sector 0 into the front of `buf`.
pub fn read_mbr_sector(disk: &DiskImage, buf: &mut Vec<u8>) -> (r: Result<(), BootError>)
    ensures
        final(buf)@.len() == old(buf)@.len(),
        r is Ok <==> old(buf)@.len() >= MBR_BYTES && disk@.len() >= MBR_BYTES,
        r is Ok ==> final(buf)@ == disk@.subrange(0, MBR_BYTES as int) + old(buf)@.skip(
            MBR_BYTES as int,
        ),
        r is Err ==> final(buf)@ == old(buf)@,
        r is Err ==> (r == Err::<(), BootError>(BootError::ResourceExhausted) <==> old(
            buf,
        )@.len() < MBR_BYTES),
        r is Err && old(buf)@.len() >= MBR_BYTES ==> r == Err::<(), BootError>(
            BootError::HardwareFault,
        ),
    {
    disk.read_sectors(0, 1, buf)
}

/// Parse the raw fields of record `i` without judging whether it is
/// populated.
pub fn parse_raw_entry(mbr: &[u8], i: usize) -> (e: RawPartitionEntry)
    requires
        i < PARTITION_ENTRY_COUNT,
        spec_entry_offset(i as int) + PARTITION_ENTRY_BYTES <= mbr@.len(),
    ensures
        e.boot_indicator == mbr@[spec_entry_offset(i as int)],
        e.partition_type == mbr@[spec_entry_offset(i as int) + 4],
        e.starting_lba == spec_le32(mbr@, spec_entry_offset(i as int) + 8),
        e.sectors == spec_le32(mbr@, spec_entry_offset(i as int) + 12),
    {
    let o: usize = PARTITION_TABLE_OFFSET + i * PARTITION_ENTRY_BYTES;
    RawPartitionEntry {
        boot_indicator: mbr[o],
        starting_chs: [mbr[o + 1], mbr[o + 2], mbr[o + 3]],
        partition_type: mbr[o + 4],
        ending_chs: [mbr[o + 5], mbr[o + 6], mbr[o + 7]],
        starting_lba: read_le32(mbr, o + 8),
        sectors: read_le32(mbr, o + 12),
    }
}

/// Parse slot `i`: `None` for an out-of-range or unpopulated record.
fn parse_slot(mbr: &[u8], i: usize) -> (e: Option<PartitionEntry>)
    requires
        i < PARTITION_ENTRY_COUNT,
    ensures
        e == spec_parse_partitions(mbr@)[i as int],
{
    let o: usize = PARTITION_TABLE_OFFSET + i * PARTITION_ENTRY_BYTES;
    if o + PARTITION_ENTRY_BYTES > mbr.len() {
        return None;
    }
    let raw = parse_raw_entry(mbr, i);
    if raw.partition_type != 0 && raw.sectors != 0 {
        Some(
            PartitionEntry {
                bootable: raw.boot_indicator == 0x80,
                partition_type: raw.partition_type,
                starting_lba: raw.starting_lba,
                sectors: raw.sectors,
            },
        )
    } else {
        None
    }
}

/// Parse the four partition records of a partition-table sector.
///
/// Each populated record — non-zero type code and sector count — yields
/// `Some` in its own slot; absent records yield `None` in theirs, so the
/// result has exactly the populated slots present, whatever their order.
pub fn parse_partitions(mbr: &[u8]) -> (out: [Option<PartitionEntry>; 4])
    ensures
        out@ == spec_parse_partitions(mbr@),
{
    let out = [parse_slot(mbr, 0), parse_slot(mbr, 1), parse_slot(mbr, 2), parse_slot(mbr, 3)];
    proof {
        assert(out@ =~= spec_parse_partitions(mbr@));
    }
    out
}

/// Read, verify, and parse sector 0 into an `MbrInfo`.
///
/// A bad signature is recorded, not fatal: parsing proceeds on the raw
/// bytes regardless. Fails only when the device cannot supply sector 0.
pub fn probe(disk: &DiskImage) -> (r: Result<MbrInfo, BootError>)
    ensures
        r is Ok <==> disk@.len() >= MBR_BYTES,
        r is Ok ==> r->Ok_0.signature_valid == spec_signature_valid(
            disk@.subrange(0, MBR_BYTES as int),
        ),
        r is Ok ==> r->Ok_0.partitions@ == spec_parse_partitions(
            disk@.subrange(0, MBR_BYTES as int),
        ),
        r is Err ==> r == Err::<MbrInfo, BootError>(BootError::HardwareFault),
{
    let mut buf: Vec<u8> = Vec::new();
    let mut i: usize = 0;
    while i < MBR_BYTES
        invariant
            i <= MBR_BYTES,
            buf@.len() == i,
        decreases MBR_BYTES - i,
    {
        buf.push(0u8);
        i = i + 1;
    }
    read_mbr_sector(disk, &mut buf)?;
    proof {
        assert(buf@ =~= disk@.subrange(0, MBR_BYTES as int));
    }
    let signature_valid = has_valid_signature(buf.as_slice());
    let partitions = parse_partitions(buf.as_slice());
    Ok(MbrInfo { signature_valid, partitions })
}

/// The trailing signature word equals `MBR_SIGNATURE`.
fn has_valid_signature(mbr: &[u8]) -> (r: bool)
    ensures
        r == spec_signature_valid(mbr@),
{
    if mbr.len() < MBR_BYTES {
        return false;
    }
    let lo: u32 = mbr[MBR_BYTES - 2] as u32;
    let hi: u32 = mbr[MBR_BYTES - 1] as u32;
    lo + 256 * hi == MBR_SIGNATURE as u32
}

/// The first bootable slot, with its index: `None` exactly when no slot is
/// bootable, else the lowest-indexed slot with the bootable flag set.
pub fn find_active_partition(info: &MbrInfo) -> (r: Option<(usize, PartitionEntry)>)
    ensures
        r is None <==> forall|i: int|
            0 <= i < 4 ==> !(#[trigger] info.partitions@[i] is Some
                && info.partitions@[i]->Some_0.bootable),
        r is Some ==> {
            let (idx, pe) = r->Some_0;
            &&& idx < 4
            &&& info.partitions@[idx as int] == Some(pe)
            &&& pe.bootable
            &&& forall|j: int|
                0 <= j < idx ==> !(#[trigger] info.partitions@[j] is Some
                    && info.partitions@[j]->Some_0.bootable)
        },
{
    let mut idx: usize = 0;
    while idx < 4
        invariant
            idx <= 4,
            forall|j: int|
                0 <= j < idx ==> !(#[trigger] info.partitions@[j] is Some
                    && info.partitions@[j]->Some_0.bootable),
        decreases 4 - idx,
    {
        match info.partitions[idx] {
            Some(pe) => {
                if pe.bootable {
                    return Some((idx, pe));
                }
            },
            None => (),
        }
        idx = idx + 1;
    }
    None
}

/// The first populated slot regardless of flags, with its index — the
/// fallback when no slot is marked bootable.
pub fn first_present_partition(info: &MbrInfo) -> (r: Option<(usize, PartitionEntry)>)
    ensures
        r is None <==> forall|i: int| 0 <= i < 4 ==> !(#[trigger] info.partitions@[i] is Some),
        r is Some ==> {
            let (idx, pe) = r->Some_0;
            &&& idx < 4
            &&& info.partitions@[idx as int] == Some(pe)
            &&& forall|j: int| 0 <= j < idx ==> !(#[trigger] info.partitions@[j] is Some)
        },
{
    let mut idx: usize = 0;
    while idx < 4
        invariant
            idx <= 4,
            forall|j: int| 0 <= j < idx ==> !(#[trigger] info.partitions@[j] is Some),
        decreases 4 - idx,
    {
        match info.partitions[idx] {
            Some(pe) => {
                return Some((idx, pe));
            },
            None => (),
        }
        idx = idx + 1;
    }
    None
}

/// The rendered text of one partition slot.
pub open spec fn spec_partition_line(i: int, slot: Option<PartitionEntry>) -> Seq<char> {
    match slot {
        None => "[ "@ + spec_dec_text(i) + " ] <empty>\n"@,
        Some(p) => "[ "@ + spec_dec_text(i) + "] boot="@ + (if p.bootable {
            "Y"@
        } else {
            "N"@
        }) + " type=0x"@ + spec_hex8_text(p.partition_type) + " start="@ + spec_dec_text(
            p.starting_lba as int,
        ) + " sectors="@ + spec_dec_text(p.sectors as int) + "\n"@,
    }
}

/// The full rendered text of an `MbrInfo`.
pub open spec fn spec_mbr_text(info: MbrInfo) -> Seq<char> {
    "-- MBR --\nsignature: "@ + (if info.signature_valid {
        "OK\n"@
    } else {
        "BAD\n"@
    }) + spec_partition_line(0, info.partitions@[0]) + spec_partition_line(1, info.partitions@[1])
        + spec_partition_line(2, info.partitions@[2]) + spec_partition_line(
        3,
        info.partitions@[3],
    )
}

/// Render one slot's line.
fn append_partition_line(s: &mut String, i: usize, slot: &Option<PartitionEntry>)
    requires
        i < 4,
    ensures
        final(s)@ == old(s)@ + spec_partition_line(i as int, *slot),
{
    match slot {
        None => {
            s.append("[ ");
            append_dec(s, i as u64);
            s.append(" ] <empty>\n");
        },
        Some(p) => {
            s.append("[ ");
            append_dec(s, i as u64);
            s.append("] boot=");
            if p.bootable {
                s.append("Y");
            } else {
                s.append("N");
            }
            s.append(" type=0x");
            let h = hex8(p.partition_type);
            s.append(h.as_str());
            s.append(" start=");
            append_dec(s, p.starting_lba as u64);
            s.append(" sectors=");
            append_dec(s, p.sectors as u64);
            s.append("\n");
        },
    }
}

/// Render parsed partition-table information as display text; what is
/// printed during bring-up is exactly this string.
pub fn debug_print(info: &MbrInfo) -> (r: String)
    ensures
        r@ == spec_mbr_text(*info),
{
    let mut s = String::new();
    s.append("-- MBR --\nsignature: ");
    if info.signature_valid {
        s.append("OK\n");
    } else {
        s.append("BAD\n");
    }
    append_partition_line(&mut s, 0, &info.partitions[0]);
    append_partition_line(&mut s, 1, &info.partitions[1]);
    append_partition_line(&mut s, 2, &info.partitions[2]);
    append_partition_line(&mut s, 3, &info.partitions[3]);
    proof {
        assert(s@ =~= spec_mbr_text(*info));
    }
    s
}

} // verus!
