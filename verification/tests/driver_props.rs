use rustyboot::ata::{
    chunk_plan, classify_busy_wait, classify_poll, identify_device_present, identify_is_ata,
    plan_read_command, sector_bytes_from_words, PollStep, ATA_SR_BSY, ATA_SR_DRQ,
};
use rustyboot::device::DiskImage;
use rustyboot::error::BootError;
use rustyboot::text::{dec_u64, hex8};
use rustyboot::vga::{VgaScreen, VGA_ATTR, VGA_BYTES, VGA_ROW_BYTES};

#[test]
fn read_command_registers_encode_the_lba() {
    let c = plan_read_command(0x12345678, 200);
    assert_eq!(c.lba0, 0x78);
    assert_eq!(c.lba1, 0x56);
    assert_eq!(c.lba2, 0x34);
    assert_eq!(c.drive_select, 0xE2);
    assert_eq!(c.sector_count, 200);
    assert_eq!(c.command, 0x20);
}

#[test]
fn chunk_plan_splits_at_the_protocol_limit() {
    let plan = chunk_plan(10, 700);
    assert_eq!(plan, vec![(10u32, 255u8), (265u32, 255u8), (520u32, 190u8)]);
    let total: u32 = plan.iter().map(|&(_, c)| c as u32).sum();
    assert_eq!(total, 700);
    assert!(chunk_plan(5, 0).is_empty());
    assert_eq!(chunk_plan(7, 255), vec![(7u32, 255u8)]);
}

#[test]
fn poll_classification_aborts_on_error_and_fault_bits() {
    assert_eq!(classify_poll(0x01, ATA_SR_DRQ, ATA_SR_BSY), PollStep::DeviceError);
    assert_eq!(classify_poll(0x20, ATA_SR_DRQ, ATA_SR_BSY), PollStep::DeviceFault);
    assert_eq!(classify_poll(ATA_SR_DRQ, ATA_SR_DRQ, ATA_SR_BSY), PollStep::Ready);
    assert_eq!(
        classify_poll(ATA_SR_DRQ | ATA_SR_BSY, ATA_SR_DRQ, ATA_SR_BSY),
        PollStep::KeepWaiting
    );
}

#[test]
fn busy_wait_is_done_as_soon_as_busy_clears() {
    // A clear busy bit wins even beside an error bit.
    assert_eq!(classify_busy_wait(0x01), PollStep::Ready);
    assert_eq!(classify_busy_wait(ATA_SR_BSY | 0x01), PollStep::DeviceError);
    assert_eq!(classify_busy_wait(ATA_SR_BSY | 0x20), PollStep::DeviceFault);
    assert_eq!(classify_busy_wait(ATA_SR_BSY), PollStep::KeepWaiting);
}

#[test]
fn identify_checks_presence_and_device_type() {
    assert!(!identify_device_present(0));
    assert!(identify_device_present(0x50));
    assert!(identify_is_ata(0, 0));
    assert!(!identify_is_ata(0x14, 0xEB));
}

#[test]
fn sector_words_unpack_low_byte_first() {
    let mut words = [0u16; 256];
    words[0] = 0x1234;
    words[255] = 0xABCD;
    let bytes = sector_bytes_from_words(&words);
    assert_eq!(bytes.len(), 512);
    assert_eq!(bytes[0], 0x34);
    assert_eq!(bytes[1], 0x12);
    assert_eq!(bytes[510], 0xCD);
    assert_eq!(bytes[511], 0xAB);
}

#[test]
fn disk_image_reads_whole_sectors() {
    let mut raw = vec![0u8; 1024];
    raw[512] = 0x42;
    raw[1023] = 0x99;
    let disk = DiskImage::new(raw);
    assert_eq!(disk.sector_count(), 2);
    let mut buf = vec![0u8; 512];
    disk.read_sectors(1, 1, &mut buf).unwrap();
    assert_eq!(buf[0], 0x42);
    assert_eq!(buf[511], 0x99);
}

#[test]
fn zero_count_reads_succeed_whatever_the_sector_number() {
    // No registers would be touched on hardware: a zero-sector read is a
    // no-op success even past the end of the device, and even on an
    // empty device, with the buffer untouched.
    let disk = DiskImage::new(Vec::new());
    let mut buf = vec![7u8; 4];
    assert!(disk.read_sectors(1, 0, &mut buf).is_ok());
    assert_eq!(buf, vec![7u8; 4]);
    let disk2 = DiskImage::new(vec![0u8; 1024]);
    assert!(disk2.read_sectors(u32::MAX, 0, &mut buf).is_ok());
    assert_eq!(buf, vec![7u8; 4]);
}

#[test]
fn disk_image_rejects_short_buffers_and_out_of_range_reads() {
    let disk = DiskImage::new(vec![0u8; 1024]);
    let mut small = vec![0u8; 511];
    assert_eq!(
        disk.read_sectors(0, 1, &mut small).unwrap_err(),
        BootError::ResourceExhausted
    );
    let mut buf = vec![0u8; 512];
    assert_eq!(
        disk.read_sectors(2, 1, &mut buf).unwrap_err(),
        BootError::HardwareFault
    );
}

#[test]
fn decimal_and_hex_text_render_exactly() {
    assert_eq!(dec_u64(0), "0");
    assert_eq!(dec_u64(7), "7");
    assert_eq!(dec_u64(12345), "12345");
    assert_eq!(dec_u64(1048576), "1048576");
    assert_eq!(hex8(0x00), "00");
    assert_eq!(hex8(0xAB), "AB");
    assert_eq!(hex8(0x7F), "7F");
}

#[test]
fn vga_prints_characters_with_attributes() {
    let mut screen = VgaScreen::new();
    screen.print_string("AB\nC");
    assert_eq!(screen.cells[0], b'A');
    assert_eq!(screen.cells[1], VGA_ATTR);
    assert_eq!(screen.cells[2], b'B');
    assert_eq!(screen.cells[VGA_ROW_BYTES], b'C');
    assert_eq!(screen.cursor, VGA_ROW_BYTES + 2);
}

#[test]
fn vga_scrolls_when_the_screen_fills() {
    let mut screen = VgaScreen::new();
    // 25 rows of text followed by one more line force a scroll.
    for _ in 0..25 {
        screen.print_string("x\n");
    }
    // 'x' rows moved up by one; the cursor sits at the start of the last row.
    assert_eq!(screen.cursor, VGA_BYTES - VGA_ROW_BYTES);
    assert_eq!(screen.cells[0], b'x');
    // Bottom row is blank.
    assert_eq!(screen.cells[VGA_BYTES - VGA_ROW_BYTES], b' ');
}

#[test]
fn vga_clear_screen_blanks_every_cell() {
    let mut screen = VgaScreen::new();
    screen.print_string("hello");
    screen.clear_screen();
    assert_eq!(screen.cursor, 0);
    assert!(screen.cells.iter().enumerate().all(|(i, &b)| {
        if i % 2 == 0 { b == b' ' } else { b == VGA_ATTR }
    }));
}
