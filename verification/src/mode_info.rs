//! Decoding of the firmware-populated video-mode record and the plan for
//! identity-mapping the physical pages that back the framebuffer.

use vstd::prelude::*;

verus! {

/// Physical address of the firmware-populated mode-info record.
pub const MODE_INFO_ADDR: u64 = 0x5200;

/// Size in bytes of the packed mode-info record.
pub const MODE_INFO_SIZE: usize = 50;

/// Size in bytes of one physical page frame.
pub const FRAME_SIZE: u64 = 4096;

/// Little-endian value of two bytes.
pub open spec fn le16(b0: u8, b1: u8) -> int {
    b0 + b1 * 0x100
}

/// Little-endian value of four bytes.
pub open spec fn le32(b0: u8, b1: u8, b2: u8, b3: u8) -> int {
    b0 + b1 * 0x100 + b2 * 0x10000 + b3 * 0x1000000
}

fn read_u16(bytes: &[u8], off: usize) -> (r: u16)
    requires
        off + 2 <= bytes@.len(),
    ensures
        r == le16(bytes@[off as int], bytes@[off as int + 1]),
{
    bytes[off] as u16 + bytes[off + 1] as u16 * 0x100
}

fn read_u32(bytes: &[u8], off: usize) -> (r: u32)
    requires
        off + 4 <= bytes@.len(),
    ensures
        r == le32(
            bytes@[off as int],
            bytes@[off as int + 1],
            bytes@[off as int + 2],
            bytes@[off as int + 3],
        ),
{
    bytes[off] as u32 + bytes[off + 1] as u32 * 0x100 + bytes[off + 2] as u32 * 0x10000
        + bytes[off + 3] as u32 * 0x1000000
}

/// The info of the VBE mode: a packed, firmware-populated record decoded
/// field by field from its raw bytes.  `physbaseptr == 0` means that no
/// framebuffer is present.
#[derive(Copy, Clone, Default, Debug)]
pub struct VBEModeInfo {
    pub attributes: u16,
    pub win_a: u8,
    pub win_b: u8,
    pub granularity: u16,
    pub winsize: u16,
    pub segment_a: u16,
    pub segment_b: u16,
    pub winfuncptr: u32,
    pub bytesperscanline: u16,
    pub xresolution: u16,
    pub yresolution: u16,
    pub xcharsize: u8,
    pub ycharsize: u8,
    pub numberofplanes: u8,
    pub bitsperpixel: u8,
    pub numberofbanks: u8,
    pub memorymodel: u8,
    pub banksize: u8,
    pub numberofimagepages: u8,
    pub unused: u8,
    pub redmasksize: u8,
    pub redfieldposition: u8,
    pub greenmasksize: u8,
    pub greenfieldposition: u8,
    pub bluemasksize: u8,
    pub bluefieldposition: u8,
    pub rsvdmasksize: u8,
    pub rsvdfieldposition: u8,
    pub directcolormodeinfo: u8,
    pub physbaseptr: u32,
    pub offscreenmemoryoffset: u32,
    pub offscreenmemsize: u16,
}

impl VBEModeInfo {
    /// Decode the record from its raw little-endian byte layout.
    pub fn from_bytes(bytes: &[u8]) -> (r: VBEModeInfo)
        requires
            bytes@.len() >= MODE_INFO_SIZE,
        ensures
            r.attributes == le16(bytes@[0], bytes@[1]),
            r.win_a == bytes@[2],
            r.win_b == bytes@[3],
            r.granularity == le16(bytes@[4], bytes@[5]),
            r.winsize == le16(bytes@[6], bytes@[7]),
            r.segment_a == le16(bytes@[8], bytes@[9]),
            r.segment_b == le16(bytes@[10], bytes@[11]),
            r.winfuncptr == le32(bytes@[12], bytes@[13], bytes@[14], bytes@[15]),
            r.bytesperscanline == le16(bytes@[16], bytes@[17]),
            r.xresolution == le16(bytes@[18], bytes@[19]),
            r.yresolution == le16(bytes@[20], bytes@[21]),
            r.xcharsize == bytes@[22],
            r.ycharsize == bytes@[23],
            r.numberofplanes == bytes@[24],
            r.bitsperpixel == bytes@[25],
            r.numberofbanks == bytes@[26],
            r.memorymodel == bytes@[27],
            r.banksize == bytes@[28],
            r.numberofimagepages == bytes@[29],
            r.unused == bytes@[30],
            r.redmasksize == bytes@[31],
            r.redfieldposition == bytes@[32],
            r.greenmasksize == bytes@[33],
            r.greenfieldposition == bytes@[34],
            r.bluemasksize == bytes@[35],
            r.bluefieldposition == bytes@[36],
            r.rsvdmasksize == bytes@[37],
            r.rsvdfieldposition == bytes@[38],
            r.directcolormodeinfo == bytes@[39],
            r.physbaseptr == le32(bytes@[40], bytes@[41], bytes@[42], bytes@[43]),
            r.offscreenmemoryoffset == le32(bytes@[44], bytes@[45], bytes@[46], bytes@[47]),
            r.offscreenmemsize == le16(bytes@[48], bytes@[49]),
    {
        VBEModeInfo {
            attributes: read_u16(bytes, 0),
            win_a: bytes[2],
            win_b: bytes[3],
            granularity: read_u16(bytes, 4),
            winsize: read_u16(bytes, 6),
            segment_a: read_u16(bytes, 8),
            segment_b: read_u16(bytes, 10),
            winfuncptr: read_u32(bytes, 12),
            bytesperscanline: read_u16(bytes, 16),
            xresolution: read_u16(bytes, 18),
            yresolution: read_u16(bytes, 20),
            xcharsize: bytes[22],
            ycharsize: bytes[23],
            numberofplanes: bytes[24],
            bitsperpixel: bytes[25],
            numberofbanks: bytes[26],
            memorymodel: bytes[27],
            banksize: bytes[28],
            numberofimagepages: bytes[29],
            unused: bytes[30],
            redmasksize: bytes[31],
            redfieldposition: bytes[32],
            greenmasksize: bytes[33],
            greenfieldposition: bytes[34],
            bluemasksize: bytes[35],
            bluefieldposition: bytes[36],
            rsvdmasksize: bytes[37],
            rsvdfieldposition: bytes[38],
            directcolormodeinfo: bytes[39],
            physbaseptr: read_u32(bytes, 40),
            offscreenmemoryoffset: read_u32(bytes, 44),
            offscreenmemsize: read_u16(bytes, 48),
        }
    }
}

/// What has to be mapped before the framebuffer may be touched: the physical
/// base, the extent in pixels and bytes, and the inclusive range of page
/// frames that the byte range spans.
#[derive(Copy, Clone, PartialEq, Eq, Structural, Debug)]
pub struct MapPlan {
    /// Physical base address of the framebuffer.
    pub base: u64,
    /// Pixel width of the mode.
    pub width: u16,
    /// Pixel height of the mode.
    pub height: u16,
    /// Number of 32-bit pixel cells, `width * height`.
    pub pixel_count: u64,
    /// Length of the framebuffer region in bytes, `pixel_count * 4`.
    pub byte_len: u64,
    /// First page frame of the region, inclusive.
    pub first_frame: u64,
    /// Last page frame of the region, inclusive.
    pub last_frame: u64,
}

/// Number of the page frame containing a physical address.
pub fn frame_containing(addr: u64) -> (r: u64)
    ensures
        r == addr / FRAME_SIZE,
{
    addr / FRAME_SIZE
}

/// The plan that `framebuffer_plan` owes for a record with a nonzero base.
pub open spec fn plan_of(info: VBEModeInfo) -> MapPlan {
    let pixels = info.xresolution * info.yresolution;
    MapPlan {
        base: info.physbaseptr as u64,
        width: info.xresolution,
        height: info.yresolution,
        pixel_count: pixels as u64,
        byte_len: (pixels * 4) as u64,
        first_frame: (info.physbaseptr as int / FRAME_SIZE as int) as u64,
        last_frame: ((info.physbaseptr + pixels * 4 - 1) / FRAME_SIZE as int) as u64,
    }
}

/// Decide the mapping work from a decoded record: `None` when the record
/// reports no framebuffer (`physbaseptr == 0`), which is a normal outcome,
/// and otherwise the exact inclusive frame range spanning
/// `width * height * 4` bytes from the reported base.
pub fn framebuffer_plan(info: &VBEModeInfo) -> (r: Option<MapPlan>)
    ensures
        r is None <==> info.physbaseptr == 0,
        info.physbaseptr != 0 ==> r == Some(plan_of(*info)),
{
    if info.physbaseptr > 0 {
        let base: u64 = info.physbaseptr as u64;
        proof {
            assert(info.xresolution as int * info.yresolution as int <= 0xffff * 0xffff)
                by (nonlinear_arith)
                requires
                    info.xresolution <= 0xffff,
                    info.yresolution <= 0xffff,
            ;
        }
        let pixels: u64 = info.xresolution as u64 * info.yresolution as u64;
        let bytes: u64 = pixels * 4;
        Some(MapPlan {
            base,
            width: info.xresolution,
            height: info.yresolution,
            pixel_count: pixels,
            byte_len: bytes,
            first_frame: base / FRAME_SIZE,
            last_frame: (base + bytes - 1) / FRAME_SIZE,
        })
    } else {
        None
    }
}

} // verus!
