use rustyboot::device::DiskImage;
use rustyboot::error::BootError;
use rustyboot::ext::{
    find_file_in_directory, get_inode, init, init_with_lba, inode_geometry, read_block, read_file,
    resolve_path, FileBuffer,
};

const BS: usize = 1024;

fn fs_put16(img: &mut Vec<u8>, off: usize, v: u16) {
    img[off..off + 2].copy_from_slice(&v.to_le_bytes());
}

fn fs_put32(img: &mut Vec<u8>, off: usize, v: u32) {
    img[off..off + 4].copy_from_slice(&v.to_le_bytes());
}

/// A blank filesystem image with 1024-byte blocks: superblock in block 1,
/// descriptor table in block 2, inode table in block 4.
fn fs_base_image(nblocks: usize) -> Vec<u8> {
    let mut img = vec![0u8; nblocks * BS];
    let sb = 1024;
    fs_put32(&mut img, sb, 32); // inodes_count
    fs_put32(&mut img, sb + 4, nblocks as u32); // blocks_count
    fs_put32(&mut img, sb + 20, 1); // first_data_block
    fs_put32(&mut img, sb + 24, 0); // block-size exponent: 1024
    fs_put32(&mut img, sb + 40, 16); // inodes_per_group
    fs_put16(&mut img, sb + 56, 0xEF53); // magic
    fs_put32(&mut img, sb + 76, 0); // rev_level
    fs_put32(&mut img, 2 * BS + 8, 4); // descriptor 0: inode table at block 4
    img
}

fn fs_set_inode(img: &mut Vec<u8>, num: u32, mode: u16, size: u32, blocks: &[(usize, u32)]) {
    let off = 4 * BS + ((num - 1) as usize) * 128;
    fs_put16(img, off, mode);
    fs_put32(img, off + 4, size);
    for &(i, b) in blocks {
        fs_put32(img, off + 40 + 4 * i, b);
    }
}

fn fs_fill_dir_block(img: &mut Vec<u8>, block: usize, entries: &[(u32, &str)]) {
    let mut off = block * BS;
    let end = block * BS + BS;
    for (k, &(ino, name)) in entries.iter().enumerate() {
        let nl = name.len();
        let rl = if k == entries.len() - 1 { end - off } else { (8 + nl + 3) & !3 };
        fs_put32(img, off, ino);
        fs_put16(img, off + 4, rl as u16);
        img[off + 6] = nl as u8;
        img[off + 7] = 1;
        img[off + 8..off + 8 + nl].copy_from_slice(name.as_bytes());
        off += rl;
    }
}

fn fs_pattern(j: usize) -> u8 {
    (j % 251) as u8
}

/// An image holding one regular file of `size` bytes under the given root
/// entries, stored in consecutive blocks from 6 on (direct, then a
/// single-indirect block, then a double-indirect tree as needed).
fn fs_image_with_file(size: usize, names: &[&str]) -> Vec<u8> {
    let nblocks_data = size.div_ceil(BS);
    let mut img = fs_base_image(40 + nblocks_data + 600);
    fs_set_inode(&mut img, 2, 0x4000, BS as u32, &[(0, 5)]);
    let entries: Vec<(u32, &str)> = names.iter().map(|&n| (3u32, n)).collect();
    fs_fill_dir_block(&mut img, 5, &entries);

    // Lay the file's data blocks out from block 6; pointer blocks follow.
    let mut data_blocks: Vec<u32> = Vec::new();
    for k in 0..nblocks_data {
        data_blocks.push((6 + k) as u32);
    }
    let mut next_free = 6 + nblocks_data;
    let mut direct: Vec<(usize, u32)> = Vec::new();
    for (i, &b) in data_blocks.iter().take(12).enumerate() {
        direct.push((i, b));
    }
    if nblocks_data > 12 {
        let single = next_free as u32;
        next_free += 1;
        direct.push((12, single));
        for (k, &b) in data_blocks.iter().skip(12).take(256).enumerate() {
            fs_put32(&mut img, single as usize * BS + 4 * k, b);
        }
    }
    if nblocks_data > 12 + 256 {
        let double = next_free as u32;
        next_free += 1;
        direct.push((13, double));
        let rest: Vec<u32> = data_blocks.iter().skip(12 + 256).copied().collect();
        for (outer, chunk) in rest.chunks(256).enumerate() {
            let inner = next_free as u32;
            next_free += 1;
            fs_put32(&mut img, double as usize * BS + 4 * outer, inner);
            for (k, &b) in chunk.iter().enumerate() {
                fs_put32(&mut img, inner as usize * BS + 4 * k, b);
            }
        }
    }
    fs_set_inode(&mut img, 3, 0x8000, size as u32, &direct);
    for j in 0..size {
        let b = data_blocks[j / BS] as usize;
        img[b * BS + j % BS] = fs_pattern(j);
    }
    img
}

#[test]
fn init_validates_magic_features_and_block_size() {
    let img = fs_base_image(8);
    let fs = init(&DiskImage::new(img.clone())).unwrap();
    assert_eq!(fs.block_size, 1024);
    assert_eq!(fs.sectors_per_block, 2);
    assert_eq!(fs.base_lba, 0);

    let mut bad_magic = img.clone();
    fs_put16(&mut bad_magic, 1024 + 56, 0x1234);
    assert_eq!(
        init(&DiskImage::new(bad_magic)).unwrap_err(),
        BootError::FormatInvalid
    );

    let mut extents = img.clone();
    fs_put32(&mut extents, 1024 + 96, 0x40);
    assert_eq!(
        init(&DiskImage::new(extents)).unwrap_err(),
        BootError::Unsupported
    );

    let mut wide = img.clone();
    fs_put32(&mut wide, 1024 + 96, 0x80);
    assert_eq!(init(&DiskImage::new(wide)).unwrap_err(), BootError::Unsupported);

    let mut big_blocks = img.clone();
    fs_put32(&mut big_blocks, 1024 + 24, 3);
    assert_eq!(
        init(&DiskImage::new(big_blocks)).unwrap_err(),
        BootError::Unsupported
    );

    assert_eq!(
        init(&DiskImage::new(vec![0u8; 100])).unwrap_err(),
        BootError::HardwareFault
    );
}

#[test]
fn init_with_lba_reads_the_superblock_behind_the_partition_base() {
    let img = fs_base_image(8);
    let mut shifted = vec![0u8; 3 * 512];
    shifted.extend_from_slice(&img);
    // The filesystem now starts at sector 3.
    let fs = init_with_lba(&DiskImage::new(shifted), 3).unwrap();
    assert_eq!(fs.base_lba, 3);
    assert_eq!(fs.block_size, 1024);
}

#[test]
fn geometry_scenario_four_kib_blocks() {
    // Block-size exponent 2, 8192 inodes per group, first data block 0:
    // the descriptor table begins at block 1 and inode 2 lands in group 0
    // at local index 1.
    let mut img = vec![0u8; 8192];
    fs_put32(&mut img, 1024 + 20, 0); // first_data_block
    fs_put32(&mut img, 1024 + 24, 2); // exponent: 4096-byte blocks
    fs_put32(&mut img, 1024 + 40, 8192); // inodes_per_group
    fs_put16(&mut img, 1024 + 56, 0xEF53);
    let fs = init(&DiskImage::new(img)).unwrap();
    assert_eq!(fs.block_size, 4096);
    let (group, local, gdt_start) = inode_geometry(&fs, 2);
    assert_eq!(group, 0);
    assert_eq!(local, 1);
    assert_eq!(gdt_start, 1);
}

#[test]
fn inode_resolution_is_repeatable() {
    let img = fs_image_with_file(3000, &["data.bin"]);
    let disk = DiskImage::new(img);
    let fs = init(&disk).unwrap();
    let a = get_inode(&fs, &disk, 2).unwrap();
    let b = get_inode(&fs, &disk, 2).unwrap();
    assert_eq!(a.mode, b.mode);
    assert_eq!(a.size, b.size);
    assert_eq!(a.block, b.block);
    assert_eq!(a.mode, 0x4000);
    assert_eq!(get_inode(&fs, &disk, 0).unwrap_err(), BootError::FormatInvalid);
}

#[test]
fn direct_block_round_trip_returns_exactly_the_written_bytes() {
    // Less than twelve blocks of content reads back bit for bit, with the
    // logical length equal to the inode's size, not the buffer capacity.
    let size = 3000;
    let img = fs_image_with_file(size, &["data.bin"]);
    let disk = DiskImage::new(img);
    let fs = init(&disk).unwrap();
    let fb = read_file(&fs, &disk, "/data.bin").unwrap();
    let bytes = fb.as_slice();
    assert_eq!(bytes.len(), size);
    for j in 0..size {
        assert_eq!(bytes[j], fs_pattern(j));
    }
}

#[test]
fn two_paths_to_one_inode_read_identically() {
    let img = fs_image_with_file(2500, &["a.bin", "b.bin"]);
    let disk = DiskImage::new(img);
    let fs = init(&disk).unwrap();
    assert_eq!(resolve_path(&fs, &disk, "/a.bin").unwrap(), 3);
    assert_eq!(resolve_path(&fs, &disk, "/b.bin").unwrap(), 3);
    let fa = read_file(&fs, &disk, "/a.bin").unwrap();
    let fb = read_file(&fs, &disk, "/b.bin").unwrap();
    assert_eq!(fa.as_slice(), fb.as_slice());
    assert_eq!(fa.size, fb.size);
}

#[test]
fn full_single_indirect_chain_reads_completely() {
    // Exactly the direct blocks plus one full single-indirect chain.
    let size = (12 + 256) * BS;
    let img = fs_image_with_file(size, &["big.bin"]);
    let disk = DiskImage::new(img);
    let fs = init(&disk).unwrap();
    let fb = read_file(&fs, &disk, "/big.bin").unwrap();
    let bytes = fb.as_slice();
    assert_eq!(bytes.len(), size);
    for j in (0..size).step_by(17) {
        assert_eq!(bytes[j], fs_pattern(j));
    }
    assert_eq!(bytes[size - 1], fs_pattern(size - 1));
}

#[test]
fn double_indirect_chain_reads_completely() {
    let size = (12 + 256 + 3) * BS + 100;
    let img = fs_image_with_file(size, &["huge.bin"]);
    let disk = DiskImage::new(img);
    let fs = init(&disk).unwrap();
    let fb = read_file(&fs, &disk, "/huge.bin").unwrap();
    let bytes = fb.as_slice();
    assert_eq!(bytes.len(), size);
    for j in (0..size).step_by(29) {
        assert_eq!(bytes[j], fs_pattern(j));
    }
}

#[test]
fn a_file_needing_more_chain_than_present_is_unsupported() {
    // The inode claims fourteen blocks of content but carries only the
    // twelve direct pointers: the reader must refuse, not truncate.
    let mut img = fs_image_with_file(12 * BS, &["trunc.bin"]);
    let off = 4 * BS + 2 * 128 + 4;
    fs_put32(&mut img, off, (14 * BS) as u32);
    let disk = DiskImage::new(img);
    let fs = init(&disk).unwrap();
    assert_eq!(
        read_file(&fs, &disk, "/trunc.bin").unwrap_err(),
        BootError::Unsupported
    );
}

#[test]
fn a_file_over_the_cap_is_resource_exhausted() {
    let mut img = fs_image_with_file(1024, &["cap.bin"]);
    let off = 4 * BS + 2 * 128 + 4;
    fs_put32(&mut img, off, 1048577);
    let disk = DiskImage::new(img);
    let fs = init(&disk).unwrap();
    assert_eq!(
        read_file(&fs, &disk, "/cap.bin").unwrap_err(),
        BootError::ResourceExhausted
    );
}

#[test]
fn path_errors_match_the_taxonomy() {
    let img = fs_image_with_file(100, &["f.bin"]);
    let disk = DiskImage::new(img);
    let fs = init(&disk).unwrap();
    assert_eq!(
        read_file(&fs, &disk, "noslash").unwrap_err(),
        BootError::FormatInvalid
    );
    assert_eq!(read_file(&fs, &disk, "/missing").unwrap_err(), BootError::NotFound);
    // A middle component that is a regular file: not a directory.
    assert_eq!(
        read_file(&fs, &disk, "/f.bin/x/y").unwrap_err(),
        BootError::FormatInvalid
    );
    // The root itself is not a regular file.
    assert_eq!(read_file(&fs, &disk, "/").unwrap_err(), BootError::FormatInvalid);
}

#[test]
fn lookup_walks_subdirectories() {
    let mut img = fs_base_image(40);
    fs_set_inode(&mut img, 2, 0x4000, BS as u32, &[(0, 5)]);
    fs_fill_dir_block(&mut img, 5, &[(4, "boot")]);
    fs_set_inode(&mut img, 4, 0x4000, BS as u32, &[(0, 6)]);
    fs_fill_dir_block(&mut img, 6, &[(5, "kern.bin")]);
    fs_set_inode(&mut img, 5, 0x8000, 3, &[(0, 7)]);
    img[7 * BS] = b'x';
    img[7 * BS + 1] = b'y';
    img[7 * BS + 2] = b'z';
    let disk = DiskImage::new(img);
    let fs = init(&disk).unwrap();
    let fb = read_file(&fs, &disk, "/boot/kern.bin").unwrap();
    assert_eq!(fb.as_slice(), b"xyz");
}

#[test]
fn corrupt_entry_stops_its_block_but_not_the_directory() {
    let mut img = fs_base_image(40);
    // Root directory spans two blocks; the first block's second record
    // declares an impossible length.
    fs_set_inode(&mut img, 2, 0x4000, (2 * BS) as u32, &[(0, 5), (1, 6)]);
    fs_fill_dir_block(&mut img, 5, &[(4, "decoy"), (4, "alsodecoy")]);
    let second = 5 * BS + 16; // after "decoy" (8 + 5 rounded to 16)
    fs_put16(&mut img, second + 4, 3); // record length under the header size
    fs_fill_dir_block(&mut img, 6, &[(3, "real.bin")]);
    fs_set_inode(&mut img, 3, 0x8000, 2, &[(0, 7)]);
    img[7 * BS] = b'o';
    img[7 * BS + 1] = b'k';
    let disk = DiskImage::new(img);
    let fs = init(&disk).unwrap();
    let fb = read_file(&fs, &disk, "/real.bin").unwrap();
    assert_eq!(fb.as_slice(), b"ok");
}

#[test]
fn an_entry_whose_name_outruns_its_record_stops_the_block() {
    let mut img = fs_base_image(40);
    fs_set_inode(&mut img, 2, 0x4000, (2 * BS) as u32, &[(0, 5), (1, 6)]);
    // First block: a record whose name length exceeds its record length,
    // followed by a record for the target; the corrupt record must end
    // the block's scan before the target is seen there.
    fs_fill_dir_block(&mut img, 5, &[(4, "deco"), (3, "real.bin")]);
    img[5 * BS + 6] = 200; // name length far beyond the 16-byte record
    fs_fill_dir_block(&mut img, 6, &[(3, "real.bin")]);
    fs_set_inode(&mut img, 3, 0x8000, 2, &[(0, 7)]);
    img[7 * BS] = b'o';
    img[7 * BS + 1] = b'k';
    let disk = DiskImage::new(img);
    let fs = init(&disk).unwrap();
    // Still found: the second block is scanned even though the first
    // block's scan stopped at the corrupt record.
    let fb = read_file(&fs, &disk, "/real.bin").unwrap();
    assert_eq!(fb.as_slice(), b"ok");
}

#[test]
fn directory_single_indirect_blocks_are_searched() {
    let mut img = fs_base_image(40);
    // Root directory: one direct block of decoys, then an entry reachable
    // only through the single-indirect pointer block.
    fs_set_inode(&mut img, 2, 0x4000, (2 * BS) as u32, &[(0, 5), (12, 8)]);
    fs_fill_dir_block(&mut img, 5, &[(4, "decoy")]);
    fs_put32(&mut img, 8 * BS, 9); // pointer block: first pointer -> block 9
    fs_fill_dir_block(&mut img, 9, &[(3, "hidden.bin")]);
    fs_set_inode(&mut img, 3, 0x8000, 2, &[(0, 7)]);
    img[7 * BS] = b'h';
    img[7 * BS + 1] = b'i';
    let disk = DiskImage::new(img);
    let fs = init(&disk).unwrap();
    let inode2 = get_inode(&fs, &disk, 2).unwrap();
    assert_eq!(
        find_file_in_directory(&fs, &disk, &inode2, b"hidden.bin").unwrap(),
        3
    );
    let fb = read_file(&fs, &disk, "/hidden.bin").unwrap();
    assert_eq!(fb.as_slice(), b"hi");
}

#[test]
fn read_block_checks_buffer_and_range() {
    let img = fs_base_image(8);
    let disk = DiskImage::new(img);
    let fs = init(&disk).unwrap();
    let mut small = vec![0u8; 100];
    assert_eq!(
        read_block(&fs, &disk, 1, &mut small).unwrap_err(),
        BootError::ResourceExhausted
    );
    let mut buf = vec![0u8; 1024];
    assert_eq!(
        read_block(&fs, &disk, 100, &mut buf).unwrap_err(),
        BootError::HardwareFault
    );
    read_block(&fs, &disk, 1, &mut buf).unwrap();
    assert_eq!(u16::from_le_bytes([buf[56], buf[57]]), 0xEF53);
}

#[test]
fn file_buffer_starts_empty_and_capped() {
    let fb = FileBuffer::new();
    assert_eq!(fb.size, 0);
    assert_eq!(fb.data.len(), 1048576);
    assert!(fb.as_slice().is_empty());
}
