use vstd::prelude::*;

verus! {

/// Base of the primary channel's I/O register block.
pub const ATA_PRIMARY_IO: u16 = 0xF10;

/// Device-control / alternate-status register.
pub const ATA_PRIMARY_CTRL: u16 = 0x3F6;

/// Status bit: error.
pub const ATA_SR_ERR: u8 = 0x01;

/// Status bit: data request ready.
pub const ATA_SR_DRQ: u8 = 0x08;

/// Status bit: device fault.
pub const ATA_SR_DF: u8 = 0x20;

/// Status bit: device ready.
pub const ATA_SR_DRDY: u8 = 0x40;

/// Status bit: busy.
pub const ATA_SR_BSY: u8 = 0x80;

/// Identify-device command byte.
pub const ATA_CMD_IDENTIFY: u8 = 0xEC;

/// 28-bit LBA read command byte.
pub const ATA_CMD_READ_SECTORS: u8 = 0x20;

/// Largest sector count one read command can carry.
pub const ATA_MAX_CHUNK: u16 = 255;

/// What one look at the status register tells the polling loop.
#[derive(Copy, Clone, Debug, PartialEq, Eq, Structural)]
pub enum PollStep {
    DeviceError,
    DeviceFault,
    Ready,
    KeepWaiting,
}

/// The register values that program one read command: drive select with
/// the high LBA bits, the sector count, and the three low LBA bytes.
#[derive(Copy, Clone, Debug, PartialEq, Eq, Structural)]
pub struct AtaReadCommand {
    pub drive_select: u8,
    pub sector_count: u8,
    pub lba0: u8,
    pub lba1: u8,
    pub lba2: u8,
    pub command: u8,
}

/// Compute the register programming for reading `chunk` sectors at
/// `lba`: the four LBA bytes spread over the three LBA registers and the
/// low nibble of drive-select (master, LBA mode).
pub fn plan_read_command(lba: u32, chunk: u8) -> (c: AtaReadCommand)
    ensures
        c.lba0 == lba % 256,
        c.lba1 == (lba / 256) % 256,
        c.lba2 == (lba / 65536) % 256,
        c.drive_select == 0xE0 + (lba / 16777216) % 16,
        c.sector_count == chunk,
        c.command == ATA_CMD_READ_SECTORS,
{
    let c = AtaReadCommand {
        drive_select: 0xE0 | ((lba >> 24) as u8 & 0x0F),
        sector_count: chunk,
        lba0: (lba & 0xFF) as u8,
        lba1: ((lba >> 8) & 0xFF) as u8,
        lba2: ((lba >> 16) & 0xFF) as u8,
        command: ATA_CMD_READ_SECTORS,
    };
    proof {
        assert((lba & 0xFF) == lba % 256) by (bit_vector);
        assert(((lba >> 8) & 0xFF) == (lba / 256) % 256) by (bit_vector);
        assert(((lba >> 16) & 0xFF) == (lba / 65536) % 256) by (bit_vector);
        assert((0xE0u8 | ((lba >> 24) as u8 & 0x0F)) == 0xE0 + (lba / 16777216) % 16)
            by (bit_vector);
    }
    c
}

/// What a status byte tells a poll that waits for `mask_set` bits to be
/// set and `mask_clear` bits to be clear: error and fault bits abort at
/// once, one bad status ends the whole command.
pub open spec fn spec_classify_poll(s: u8, mask_set: u8, mask_clear: u8) -> PollStep {
    if s & ATA_SR_ERR != 0 {
        PollStep::DeviceError
    } else if s & ATA_SR_DF != 0 {
        PollStep::DeviceFault
    } else if s & mask_set == mask_set && s & mask_clear == 0 {
        PollStep::Ready
    } else {
        PollStep::KeepWaiting
    }
}

/// Classify one status read of a poll loop.
pub fn classify_poll(s: u8, mask_set: u8, mask_clear: u8) -> (r: PollStep)
    ensures
        r == spec_classify_poll(s, mask_set, mask_clear),
{
    if s & ATA_SR_ERR != 0 {
        PollStep::DeviceError
    } else if s & ATA_SR_DF != 0 {
        PollStep::DeviceFault
    } else if s & mask_set == mask_set && s & mask_clear == 0 {
        PollStep::Ready
    } else {
        PollStep::KeepWaiting
    }
}

/// What a status byte tells the busy-wait: a clear busy bit means ready
/// even alongside error bits; otherwise error and fault bits abort.
pub open spec fn spec_classify_busy_wait(s: u8) -> PollStep {
    if s & ATA_SR_BSY == 0 {
        PollStep::Ready
    } else if s & ATA_SR_ERR != 0 {
        PollStep::DeviceError
    } else if s & ATA_SR_DF != 0 {
        PollStep::DeviceFault
    } else {
        PollStep::KeepWaiting
    }
}

/// Classify one status read of the busy-wait loop.
pub fn classify_busy_wait(s: u8) -> (r: PollStep)
    ensures
        r == spec_classify_busy_wait(s),
{
    if s & ATA_SR_BSY == 0 {
        PollStep::Ready
    } else if s & ATA_SR_ERR != 0 {
        PollStep::DeviceError
    } else if s & ATA_SR_DF != 0 {
        PollStep::DeviceFault
    } else {
        PollStep::KeepWaiting
    }
}

/// A zero status after the identify command means no device answered.
pub fn identify_device_present(status: u8) -> (r: bool)
    ensures
        r == (status != 0),
{
    status != 0
}

/// Non-zero LBA registers after identify mean the responder is not a
/// plain ATA disk.
pub fn identify_is_ata(lba1: u8, lba2: u8) -> (r: bool)
    ensures
        r == (lba1 == 0 && lba2 == 0),
{
    lba1 == 0 && lba2 == 0
}

/// The chunks a read of `count` sectors at `lba` is split into: at most
/// `ATA_MAX_CHUNK` sectors per command, in ascending order, the sector
/// number wrapping as the hardware's 32-bit register would.
pub open spec fn spec_chunk_plan(lba: u32, count: u16) -> Seq<(u32, u8)>
    decreases count,
{
    if count == 0 {
        Seq::empty()
    } else {
        let c: u16 = if count < ATA_MAX_CHUNK {
            count
        } else {
            ATA_MAX_CHUNK
        };
        seq![(lba, c as u8)] + spec_chunk_plan(
            ((lba + c) % 0x100000000) as u32,
            (count - c) as u16,
        )
    }
}

/// Total sectors of a chunk plan.
pub open spec fn spec_chunk_total(plan: Seq<(u32, u8)>) -> int
    decreases plan.len(),
{
    if plan.len() == 0 {
        0
    } else {
        plan[0].1 + spec_chunk_total(plan.skip(1))
    }
}

/// Split a read into per-command chunks.
pub fn chunk_plan(lba: u32, count: u16) -> (plan: Vec<(u32, u8)>)
    ensures
        plan@ == spec_chunk_plan(lba, count),
{
    let mut plan: Vec<(u32, u8)> = Vec::new();
    let mut cur_lba: u32 = lba;
    let mut left: u16 = count;
    while left > 0
        invariant
            plan@ + spec_chunk_plan(cur_lba, left) == spec_chunk_plan(lba, count),
        decreases left,
    {
        let c: u16 = if left < ATA_MAX_CHUNK {
            left
        } else {
            ATA_MAX_CHUNK
        };
        plan.push((cur_lba, c as u8));
        proof {
            assert(plan@ + spec_chunk_plan(
                ((cur_lba + c) % 0x100000000) as u32,
                (left - c) as u16,
            ) =~= spec_chunk_plan(lba, count));
        }
        cur_lba = cur_lba.wrapping_add(c as u32);
        left = left - c;
    }
    proof {
        assert(plan@ =~= spec_chunk_plan(lba, count));
    }
    plan
}

/// Law: a chunk plan's chunks carry exactly the requested sector count,
/// and each chunk respects the per-command limit.
pub proof fn lemma_chunk_plan_total(lba: u32, count: u16)
    ensures
        spec_chunk_total(spec_chunk_plan(lba, count)) == count,
        forall|k: int|
            0 <= k < spec_chunk_plan(lba, count).len() ==> (#[trigger] spec_chunk_plan(
                lba,
                count,
            )[k].1) as int <= ATA_MAX_CHUNK,
    decreases count,
{
    if count > 0 {
        let c: u16 = if count < ATA_MAX_CHUNK {
            count
        } else {
            ATA_MAX_CHUNK
        };
        let next_lba = ((lba + c) % 0x100000000) as u32;
        lemma_chunk_plan_total(next_lba, (count - c) as u16);
        let plan = spec_chunk_plan(lba, count);
        let rest = spec_chunk_plan(next_lba, (count - c) as u16);
        assert(plan.skip(1) =~= rest);
        assert(forall|k: int| 0 <= k < rest.len() ==> plan[k + 1] == #[trigger] rest[k]);
    }
}

/// Reassemble one sector's bytes from the 256 data words the drive hands
/// out: each word contributes its low byte, then its high byte.
pub fn sector_bytes_from_words(words: &[u16]) -> (out: Vec<u8>)
    requires
        words@.len() == 256,
    ensures
        out@.len() == 512,
        forall|k: int|
            0 <= k < 256 ==> out@[2 * k] == (#[trigger] words@[k]) % 256 && out@[2 * k + 1]
                == words@[k] / 256,
{
    let mut out: Vec<u8> = Vec::new();
    let mut i: usize = 0;
    while i < 256
        invariant
            words@.len() == 256,
            i <= 256,
            out@.len() == 2 * i,
            forall|k: int|
                0 <= k < i ==> out@[2 * k] == (#[trigger] words@[k]) % 256 && out@[2 * k + 1]
                    == words@[k] / 256,
        decreases 256 - i,
    {
        let w: u16 = words[i];
        out.push((w % 256) as u8);
        out.push((w / 256) as u8);
        i = i + 1;
    }
    out
}

} // verus!
