use rustyboot::device::DiskImage;
use rustyboot::error::BootError;
use rustyboot::ext::init;
use rustyboot::loader::{find_and_load_kernel, load, parse_header};
use rustyboot::manager::{MemoryManager, MemoryRegionType};
use rustyboot::window::MemoryWindow;

fn ld_put16(img: &mut Vec<u8>, off: usize, v: u16) {
    img[off..off + 2].copy_from_slice(&v.to_le_bytes());
}

fn ld_put32(img: &mut Vec<u8>, off: usize, v: u32) {
    img[off..off + 4].copy_from_slice(&v.to_le_bytes());
}

fn ld_put64(img: &mut Vec<u8>, off: usize, v: u64) {
    img[off..off + 8].copy_from_slice(&v.to_le_bytes());
}

/// A 64-bit executable image with the given loadable segments.
fn elf64_image(entry: u64, segs: &[(u64, u64, u64, u64)], total: usize) -> Vec<u8> {
    // (file_offset, virt_addr, file_size, mem_size)
    let mut img = vec![0u8; total];
    img[0] = 0x7F;
    img[1] = b'E';
    img[2] = b'L';
    img[3] = b'F';
    img[4] = 2; // 64-bit
    img[5] = 1; // little-endian
    ld_put64(&mut img, 24, entry);
    ld_put64(&mut img, 32, 64); // program-header table offset
    ld_put16(&mut img, 54, 56); // entry size
    ld_put16(&mut img, 56, segs.len() as u16);
    for (i, &(fo, va, fsz, msz)) in segs.iter().enumerate() {
        let o = 64 + 56 * i;
        ld_put32(&mut img, o, 1); // loadable
        ld_put64(&mut img, o + 8, fo);
        ld_put64(&mut img, o + 16, va);
        ld_put64(&mut img, o + 32, fsz);
        ld_put64(&mut img, o + 40, msz);
    }
    img
}

/// A 32-bit executable image with one loadable segment.
fn elf32_image(entry: u32, fo: u32, va: u32, fsz: u32, msz: u32, total: usize) -> Vec<u8> {
    let mut img = vec![0u8; total];
    img[0] = 0x7F;
    img[1] = b'E';
    img[2] = b'L';
    img[3] = b'F';
    img[4] = 1; // 32-bit
    img[5] = 1; // little-endian
    ld_put32(&mut img, 24, entry);
    ld_put32(&mut img, 28, 52); // program-header table offset
    ld_put16(&mut img, 42, 32); // entry size
    ld_put16(&mut img, 44, 1);
    ld_put32(&mut img, 52, 1); // loadable
    ld_put32(&mut img, 56, fo);
    ld_put32(&mut img, 60, va);
    ld_put32(&mut img, 68, fsz);
    ld_put32(&mut img, 72, msz);
    img
}

#[test]
fn header_validation_refuses_bad_images() {
    let good = elf64_image(0x100000, &[], 64);
    assert!(parse_header(&good).is_ok());

    let mut bad_magic = good.clone();
    bad_magic[0] = 0;
    assert_eq!(parse_header(&bad_magic).unwrap_err(), BootError::FormatInvalid);

    let mut bad_class = good.clone();
    bad_class[4] = 3;
    assert_eq!(parse_header(&bad_class).unwrap_err(), BootError::FormatInvalid);

    let mut big_endian = good.clone();
    big_endian[5] = 2;
    assert_eq!(parse_header(&big_endian).unwrap_err(), BootError::FormatInvalid);

    assert_eq!(parse_header(&[0u8; 10]).unwrap_err(), BootError::FormatInvalid);
}

#[test]
fn one_segment_scenario_copies_and_zero_fills() {
    // One loadable segment: 100 file bytes, 400 memory bytes, at 0x100000.
    let mut img = elf64_image(0x100000, &[(120, 0x100000, 100, 400)], 220);
    for j in 0..100 {
        img[120 + j] = (j as u8).wrapping_mul(3).wrapping_add(1);
    }
    let mut mm = MemoryManager::new();
    let mut win = MemoryWindow::new(0x100000, 0x1000);
    // Pre-dirty the window so the zero fill is observable.
    win.write_bytes(0x100000, &[0xFFu8; 0x500]);

    let entry = load(&img, &mut mm, &mut win).unwrap();
    assert_eq!(entry, 0x100000);
    for j in 0..100 {
        assert_eq!(win.read_byte(0x100000 + j), (j as u8).wrapping_mul(3).wrapping_add(1));
    }
    // 300 zero bytes at 0x100064..0x100190.
    let tail = win.read_range(0x100064, 300);
    assert!(tail.iter().all(|&b| b == 0));
    // The byte after the segment is untouched.
    assert_eq!(win.read_byte(0x100190), 0xFF);
    // The span was reserved before the copy: heap_end shrank to the
    // segment start, and a Reserved region was catalogued.
    let stats = mm.get_stats();
    assert_eq!(stats.heap_end, 0x100000);
    let regions = mm.get_regions();
    let last = regions[regions.len() - 1];
    assert_eq!(last.start, 0x100000);
    assert_eq!(last.size, 400);
    assert_eq!(last.region_type, MemoryRegionType::Reserved);
}

#[test]
fn thirty_two_bit_images_load_per_their_layout() {
    let mut img = elf32_image(0x101000, 84, 0x101000, 4, 8, 100);
    img[84..88].copy_from_slice(b"zyxw");
    let mut mm = MemoryManager::new();
    let mut win = MemoryWindow::new(0x100000, 0x2000);
    let entry = load(&img, &mut mm, &mut win).unwrap();
    assert_eq!(entry, 0x101000);
    assert_eq!(win.read_byte(0x101000), b'z');
    assert_eq!(win.read_byte(0x101003), b'w');
    assert_eq!(win.read_byte(0x101004), 0);
}

#[test]
fn segments_outside_the_window_are_refused() {
    let img = elf64_image(0x200000, &[(120, 0x200000, 10, 10)], 220);
    let mut mm = MemoryManager::new();
    let mut win = MemoryWindow::new(0x100000, 0x1000);
    assert_eq!(
        load(&img, &mut mm, &mut win).unwrap_err(),
        BootError::ResourceExhausted
    );
    // Nothing changed.
    assert_eq!(mm.get_stats().heap_end, 0x800000);
}

#[test]
fn segment_file_bytes_outside_the_image_are_refused() {
    let img = elf64_image(0x100000, &[(1000, 0x100000, 100, 100)], 220);
    let mut mm = MemoryManager::new();
    let mut win = MemoryWindow::new(0x100000, 0x1000);
    assert_eq!(
        load(&img, &mut mm, &mut win).unwrap_err(),
        BootError::FormatInvalid
    );
}

#[test]
fn two_segments_load_in_order() {
    let mut img = elf64_image(
        0x100000,
        &[(176, 0x100000, 4, 4), (180, 0x100100, 4, 16)],
        200,
    );
    img[176..180].copy_from_slice(b"aaaa");
    img[180..184].copy_from_slice(b"bbbb");
    let mut mm = MemoryManager::new();
    let mut win = MemoryWindow::new(0x100000, 0x1000);
    load(&img, &mut mm, &mut win).unwrap();
    assert_eq!(win.read_byte(0x100000), b'a');
    assert_eq!(win.read_byte(0x100100), b'b');
    assert_eq!(win.read_byte(0x100104), 0);
    // The covering span [0x100000, 0x100110) was reserved once.
    let regions = mm.get_regions();
    let last = regions[regions.len() - 1];
    assert_eq!(last.start, 0x100000);
    assert_eq!(last.size, 0x110);
}

// ===== A whole-pipeline run over a synthetic disk =====

const FSBS: usize = 1024;

fn ld_fs_image_with_kernel(name_in_root: &str, content: &[u8]) -> Vec<u8> {
    let mut img = vec![0u8; 64 * FSBS];
    let sb = 1024;
    ld_put32(&mut img, sb, 32);
    ld_put32(&mut img, sb + 4, 64);
    ld_put32(&mut img, sb + 20, 1); // first_data_block
    ld_put32(&mut img, sb + 24, 0); // 1024-byte blocks
    ld_put32(&mut img, sb + 40, 16); // inodes_per_group
    ld_put16(&mut img, sb + 56, 0xEF53);
    ld_put32(&mut img, 2 * FSBS + 8, 4); // inode table at block 4
    // Root directory: block 5, one entry.
    let root = 4 * FSBS + 128;
    ld_put16(&mut img, root, 0x4000);
    ld_put32(&mut img, root + 4, FSBS as u32);
    ld_put32(&mut img, root + 40, 5);
    let e = 5 * FSBS;
    ld_put32(&mut img, e, 3);
    ld_put16(&mut img, e + 4, FSBS as u16);
    img[e + 6] = name_in_root.len() as u8;
    img[e + 7] = 1;
    img[e + 8..e + 8 + name_in_root.len()].copy_from_slice(name_in_root.as_bytes());
    // The kernel file: inode 3, direct blocks from 6.
    assert!(content.len() <= 12 * FSBS);
    let ino = 4 * FSBS + 2 * 128;
    ld_put16(&mut img, ino, 0x8000);
    ld_put32(&mut img, ino + 4, content.len() as u32);
    let nblocks = content.len().div_ceil(FSBS);
    for k in 0..nblocks {
        ld_put32(&mut img, ino + 40 + 4 * k, (6 + k) as u32);
    }
    img[6 * FSBS..6 * FSBS + content.len()].copy_from_slice(content);
    img
}

#[test]
fn the_pipeline_finds_and_loads_a_kernel() {
    let mut kernel = elf64_image(0x100040, &[(120, 0x100000, 100, 120)], 220);
    for j in 0..100 {
        kernel[120 + j] = j as u8;
    }
    let img = ld_fs_image_with_kernel("kernel.elf", &kernel);
    let disk = DiskImage::new(img);
    let fs = init(&disk).unwrap();
    let mut mm = MemoryManager::new();
    let mut win = MemoryWindow::new(0x100000, 0x1000);
    // The first candidate path is absent; the second one loads.
    let entry = find_and_load_kernel(&fs, &disk, &mut mm, &mut win).unwrap();
    assert_eq!(entry, 0x100040);
    assert_eq!(win.read_byte(0x100000), 0);
    assert_eq!(win.read_byte(0x100001), 1);
    assert_eq!(win.read_byte(0x100063), 99);
    assert_eq!(win.read_byte(0x100064), 0);
}

#[test]
fn no_candidate_kernel_means_not_found() {
    let img = ld_fs_image_with_kernel("other.bin", b"not a kernel");
    let disk = DiskImage::new(img);
    let fs = init(&disk).unwrap();
    let mut mm = MemoryManager::new();
    let mut win = MemoryWindow::new(0x100000, 0x1000);
    assert_eq!(
        find_and_load_kernel(&fs, &disk, &mut mm, &mut win).unwrap_err(),
        BootError::NotFound
    );
}

#[test]
fn a_present_but_invalid_kernel_is_skipped() {
    // The file exists at a candidate path but is not an executable image;
    // with no further candidate, the search fails.
    let img = ld_fs_image_with_kernel("kernel.elf", b"garbage");
    let disk = DiskImage::new(img);
    let fs = init(&disk).unwrap();
    let mut mm = MemoryManager::new();
    let mut win = MemoryWindow::new(0x100000, 0x1000);
    assert_eq!(
        find_and_load_kernel(&fs, &disk, &mut mm, &mut win).unwrap_err(),
        BootError::NotFound
    );
}
