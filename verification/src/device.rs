use vstd::prelude::*;

use crate::error::BootError;

verus! {

/// Bytes in one sector of the block device.
pub const SECTOR_BYTES: usize = 512;

/// The raw contents of a block device, held in memory.
///
/// The driver's port-I/O state machine (see `ata`) fills such an image from
/// hardware outside the library; everything the pipeline reads from disk is
/// then a verified function of these bytes. Sector `lba` occupies bytes
/// `lba * 512 .. lba * 512 + 512` of the image.
pub struct DiskImage {
    bytes: Vec<u8>,
}

impl View for DiskImage {
    type V = Seq<u8>;

    closed spec fn view(&self) -> Seq<u8> {
        self.bytes@
    }
}

impl DiskImage {
    /// Wrap raw device bytes as an image.
    pub fn new(bytes: Vec<u8>) -> (d: Self)
        ensures
            d@ == bytes@,
    {
        DiskImage { bytes }
    }

    /// Number of whole sectors the image holds.
    pub fn sector_count(&self) -> (n: usize)
        ensures
            n == self@.len() / 512,
    {
        self.bytes.len() / SECTOR_BYTES
    }

    /// True when sectors `lba .. lba + count` lie within the image.
    pub open spec fn spec_in_range(self, lba: u32, count: u16) -> bool {
        lba * 512 + count * 512 <= self@.len()
    }

    /// Read `count` sectors starting at `lba` into the front of `buffer`,
    /// leaving the rest of `buffer` unchanged.
    ///
    /// A zero-count read succeeds at once, whatever the sector number,
    /// touching nothing. Otherwise it fails with `ResourceExhausted` when
    /// `buffer` is smaller than `count * 512`, and with `HardwareFault`
    /// when the requested sectors lie past the end of the device.
    pub fn read_sectors(&self, lba: u32, count: u16, buffer: &mut Vec<u8>) -> (r: Result<
        (),
        BootError,
    >)
        ensures
            final(buffer)@.len() == old(buffer)@.len(),
            count == 0 ==> r is Ok && final(buffer)@ == old(buffer)@,
            count > 0 ==> (r is Ok <==> old(buffer)@.len() >= count * 512 && self.spec_in_range(
                lba,
                count,
            )),
            count > 0 && r is Ok ==> final(buffer)@ == self@.subrange(
                lba * 512,
                lba * 512 + count * 512,
            ) + old(buffer)@.skip(count * 512),
            r is Err ==> final(buffer)@ == old(buffer)@,
            r is Err ==> (r == Err::<(), BootError>(BootError::ResourceExhausted) <==> old(
                buffer,
            )@.len() < count * 512),
            r is Err && old(buffer)@.len() >= count * 512 ==> r == Err::<(), BootError>(
                BootError::HardwareFault,
            ),
    {
        if count == 0 {
            return Ok(());
        }
        let total: usize = (count as usize) * SECTOR_BYTES;
        if buffer.len() < total {
            return Err(BootError::ResourceExhausted);
        }
        let start64: u64 = (lba as u64) * 512;
        let end64: u64 = start64 + (total as u64);
        if end64 > self.bytes.len() as u64 {
            return Err(BootError::HardwareFault);
        }
        let start: usize = start64 as usize;
        let mut i: usize = 0;
        while i < total
            invariant
                i <= total,
                total == count * 512,
                start == lba * 512,
                start + total <= self.bytes@.len(),
                self.bytes@.len() <= usize::MAX,
                buffer@.len() == old(buffer)@.len(),
                old(buffer)@.len() >= total,
                buffer@ == self.bytes@.subrange(start as int, start + i) + old(buffer)@.skip(
                    i as int,
                ),
            decreases total - i,
        {
            let b: u8 = self.bytes[start + i];
            buffer.set(i, b);
            proof {
                assert(buffer@ =~= self.bytes@.subrange(start as int, start + i + 1) + old(
                    buffer,
                )@.skip(i + 1));
            }
            i = i + 1;
        }
        proof {
            assert(buffer@ =~= self@.subrange(lba * 512, lba * 512 + count * 512) + old(
                buffer,
            )@.skip(count * 512));
        }
        Ok(())
    }
}

} // verus!
