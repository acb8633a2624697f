use fbconsole::mode_info::{frame_containing, framebuffer_plan, VBEModeInfo, MODE_INFO_SIZE};

fn record_bytes(xres: u16, yres: u16, physbaseptr: u32) -> Vec<u8> {
    let mut b = vec![0u8; MODE_INFO_SIZE];
    b[18] = (xres & 0xFF) as u8;
    b[19] = (xres >> 8) as u8;
    b[20] = (yres & 0xFF) as u8;
    b[21] = (yres >> 8) as u8;
    b[40] = (physbaseptr & 0xFF) as u8;
    b[41] = ((physbaseptr >> 8) & 0xFF) as u8;
    b[42] = ((physbaseptr >> 16) & 0xFF) as u8;
    b[43] = ((physbaseptr >> 24) & 0xFF) as u8;
    b
}

#[test]
fn decode_reads_every_field_little_endian() {
    let mut b = vec![0u8; MODE_INFO_SIZE];
    b[0] = 0x34;
    b[1] = 0x12; // attributes
    b[2] = 7; // win_a
    b[3] = 9; // win_b
    b[12] = 0x78;
    b[13] = 0x56;
    b[14] = 0x34;
    b[15] = 0x12; // winfuncptr
    b[16] = 0x00;
    b[17] = 0x0A; // bytesperscanline
    b[18] = 0x80;
    b[19] = 0x02; // xresolution = 640
    b[20] = 0xE0;
    b[21] = 0x01; // yresolution = 480
    b[25] = 32; // bitsperpixel
    b[40] = 0x00;
    b[41] = 0x00;
    b[42] = 0x00;
    b[43] = 0xFD; // physbaseptr = 0xFD000000
    b[48] = 0x2C;
    b[49] = 0x01; // offscreenmemsize
    let info = VBEModeInfo::from_bytes(&b);
    assert_eq!(info.attributes, 0x1234);
    assert_eq!(info.win_a, 7);
    assert_eq!(info.win_b, 9);
    assert_eq!(info.winfuncptr, 0x12345678);
    assert_eq!(info.bytesperscanline, 0x0A00);
    assert_eq!(info.xresolution, 640);
    assert_eq!(info.yresolution, 480);
    assert_eq!(info.bitsperpixel, 32);
    assert_eq!(info.physbaseptr, 0xFD000000);
    assert_eq!(info.offscreenmemsize, 0x012C);
}

#[test]
fn zero_base_means_no_framebuffer() {
    let info = VBEModeInfo::from_bytes(&record_bytes(640, 480, 0));
    assert!(framebuffer_plan(&info).is_none());
}

#[test]
fn plan_spans_exactly_the_framebuffer_pages() {
    let info = VBEModeInfo::from_bytes(&record_bytes(640, 480, 0xFD000000));
    let plan = framebuffer_plan(&info).unwrap();
    assert_eq!(plan.base, 0xFD000000);
    assert_eq!(plan.width, 640);
    assert_eq!(plan.height, 480);
    assert_eq!(plan.pixel_count, 640 * 480);
    assert_eq!(plan.byte_len, 640 * 480 * 4);
    assert_eq!(plan.first_frame, 0xFD000000 / 4096);
    assert_eq!(plan.last_frame, (0xFD000000u64 + 640 * 480 * 4 - 1) / 4096);
    assert_eq!(plan.last_frame - plan.first_frame + 1, 300);
}

#[test]
fn plan_with_zero_extent_mode() {
    let info = VBEModeInfo::from_bytes(&record_bytes(0, 0, 0x1000));
    let plan = framebuffer_plan(&info).unwrap();
    assert_eq!(plan.pixel_count, 0);
    assert_eq!(plan.byte_len, 0);
    assert_eq!(plan.first_frame, 1);
    assert_eq!(plan.last_frame, 0); // inclusive range is empty
}

#[test]
fn info_page_frame() {
    assert_eq!(frame_containing(0x5200), 5);
}
