//! The framebuffer: its setup, the boot screen, the desktop, and when the desktop
//! is painted.
use crate::bytes;
use crate::platform::desktop;
use crate::platform::desktop::{Content, Desktop, Draw, Paint, Rect, WindowSpec};
use crate::ring::ByteRing;
use vstd::prelude::*;
use vstd::string::*;

verus! {

/// Address of the framebuffer.
pub const FB_PHYS: u64 = 0x7FC0_0000;

/// Pixels in a row.
pub const FB_WIDTH: usize = 1280;

/// Rows.
pub const FB_HEIGHT: usize = 800;

/// Bytes in a row.
pub const FB_STRIDE_BYTES: usize = 5120;

/// Bytes reserved for the framebuffer.
pub const FB_SIZE: usize = 0x40_0000;

/// Address of the firmware configuration device.
pub const FWCFG_PHYS: u64 = 0x0902_0000;

/// Register for data, byte by byte.
pub const FWCFG_DATA: usize = 0x00;

/// Register that selects what the data are.
pub const FWCFG_SELECTOR: usize = 0x08;

/// Register that starts a transfer.
pub const FWCFG_DMA: usize = 0x10;

/// Selects the directory of files.
pub const FW_CFG_FILE_DIR: u16 = 0x0019;

/// A transfer that selects a file first.
pub const DMA_CTL_SELECT: u32 = 0x08;

/// A transfer to the file.
pub const DMA_CTL_WRITE: u32 = 0x10;

/// The pixel format: 32 bits, the top eight unused.
pub const DRM_FORMAT_XRGB8888: u32 = 0x3432_5258;

// ---------------------------------------------------------------------------
// Setup
// ---------------------------------------------------------------------------

/// The framebuffer has room for its rows.
pub proof fn law_framebuffer_fits()
    ensures
        FB_STRIDE_BYTES == FB_WIDTH * 4,
        FB_STRIDE_BYTES * FB_HEIGHT <= FB_SIZE,
{
}

/// The name of the file to look for, with the zero that ends it.
pub open spec fn ramfb_name() -> Seq<u8> {
    seq![0x65u8, 0x74u8, 0x63u8, 0x2fu8, 0x72u8, 0x61u8, 0x6du8, 0x66u8, 0x62u8, 0x00u8]
}

/// Entry `i` of a directory: size, selector, two unused bytes, and a name of 56
/// bytes.
pub open spec fn names_ramfb(dir: Seq<u8>, i: int) -> bool {
    dir.subrange(4 + 64 * i + 8, 4 + 64 * i + 18) == ramfb_name()
}

/// Bytes of a directory of `count` files.
pub fn directory_len(count: u32) -> (r: u64)
    ensures
        r == 4 + 64 * count,
{
    4 + 64 * count as u64
}

/// The selector of the framebuffer's configuration file: that of the first entry
/// with its name. `dir` is the directory: the number of files, then the entries.
pub fn find_ramfb_key(dir: &[u8]) -> (r: Option<u16>)
    requires
        dir@.len() >= 4,
        dir@.len() == 4 + 64 * bytes::be32_at(dir@, 0),
    ensures
        match r {
            Some(key) => exists|i: int|
                0 <= i < bytes::be32_at(dir@, 0) && #[trigger] names_ramfb(dir@, i) && key
                    == bytes::be16_at(dir@, 4 + 64 * i + 4) && forall|j: int|
                    0 <= j < i ==> !names_ramfb(dir@, j),
            None => forall|j: int| 0 <= j < bytes::be32_at(dir@, 0) ==> !names_ramfb(dir@, j),
        },
{
    let count: u32 = bytes::be32(dir, 0);
    let name: [u8; 10] = [0x65, 0x74, 0x63, 0x2f, 0x72, 0x61, 0x6d, 0x66, 0x62, 0x00];
    assert(name@ =~= ramfb_name());
    let mut i: u32 = 0;
    while i < count
        invariant
            i <= count,
            count == bytes::be32_at(dir@, 0),
            dir@.len() == 4 + 64 * count,
            name@ == ramfb_name(),
            forall|j: int| 0 <= j < i ==> !names_ramfb(dir@, j),
        decreases count - i,
    {
        assert(dir.len() == dir@.len());
        let at: usize = 4 + 64 * i as usize;
        let entry: &[u8] = vstd::slice::slice_subrange(dir, at + 8, at + 18);
        assert(entry@ == dir@.subrange(4 + 64 * i + 8, 4 + 64 * i + 18));
        if bytes::same_bytes(entry, vstd::array::array_as_slice(&name)) {
            assert(names_ramfb(dir@, i as int));
            return Some(bytes::be16(dir, at + 4));
        }
        i = i + 1;
    }
    None
}

/// The configuration that describes the framebuffer.
pub open spec fn config_bytes() -> Seq<u8> {
    bytes::be64_bytes(FB_PHYS) + bytes::be32_bytes(DRM_FORMAT_XRGB8888) + bytes::be32_bytes(0)
        + bytes::be32_bytes(FB_WIDTH as u32) + bytes::be32_bytes(FB_HEIGHT as u32)
        + bytes::be32_bytes(FB_STRIDE_BYTES as u32)
}

/// The request for a transfer to a file.
pub open spec fn request_bytes(key: u16, len: u32, address: u64) -> Seq<u8> {
    bytes::be32_bytes((key * 0x1_0000 + DMA_CTL_SELECT + DMA_CTL_WRITE) as u32)
        + bytes::be32_bytes(len) + bytes::be64_bytes(address)
}

/// The configuration that the framebuffer's file takes: address, format, flags,
/// width, height and bytes in a row, most significant bytes first.
pub fn ramfb_config() -> (r: Vec<u8>)
    ensures
        r@ == config_bytes(),
{
    let mut r: Vec<u8> = Vec::new();
    bytes::push_be64(&mut r, FB_PHYS);
    bytes::push_be32(&mut r, DRM_FORMAT_XRGB8888);
    bytes::push_be32(&mut r, 0);
    bytes::push_be32(&mut r, FB_WIDTH as u32);
    bytes::push_be32(&mut r, FB_HEIGHT as u32);
    bytes::push_be32(&mut r, FB_STRIDE_BYTES as u32);
    r
}

/// The request that writes `len` bytes at `address` to the file that `key`
/// selects: control word, length and address, most significant bytes first.
pub fn dma_request(key: u16, len: u32, address: u64) -> (r: Vec<u8>)
    ensures
        r@ == request_bytes(key, len, address),
{
    let control: u32 = key as u32 * 0x1_0000 + DMA_CTL_SELECT + DMA_CTL_WRITE;
    let mut r: Vec<u8> = Vec::new();
    bytes::push_be32(&mut r, control);
    bytes::push_be32(&mut r, len);
    bytes::push_be64(&mut r, address);
    r
}

/// The two words that start the transfer described at `address`: the high one
/// first, and the low one, which starts it.
pub fn dma_start_words(address: u64) -> (r: (u32, u32))
    ensures
        r.0 * 0x1_0000_0000 + r.1 == address,
{
    ((address / 0x1_0000_0000) as u32, (address % 0x1_0000_0000) as u32)
}

/// The configuration, read back: 28 bytes, with the address at 0, the letters of the format,
/// lowest byte first, at 8, no flags at 12, the width at 16, the height at 20, and at 24 the
/// bytes in a row, four to a pixel. The rows end before the memory of the framebuffer does.
pub proof fn law_configuration_is_read()
    ensures
        ({
            let c = config_bytes();
            &&& c.len() == 28
            &&& bytes::be64_at(c, 0) == 0x7FC0_0000
            &&& c.subrange(8, 12) == seq!['4' as u8, '2' as u8, 'R' as u8, 'X' as u8]
            &&& bytes::be32_at(c, 12) == 0
            &&& bytes::be32_at(c, 16) == 1280
            &&& bytes::be32_at(c, 20) == 800
            &&& bytes::be32_at(c, 24) == 4 * bytes::be32_at(c, 16)
            &&& bytes::be32_at(c, 24) * bytes::be32_at(c, 20) <= 0x40_0000
        }),
{
    let e = Seq::<u8>::empty();
    let a = bytes::be64_bytes(FB_PHYS);
    let f = bytes::be32_bytes(DRM_FORMAT_XRGB8888);
    let z = bytes::be32_bytes(0);
    let w = bytes::be32_bytes(FB_WIDTH as u32);
    let h = bytes::be32_bytes(FB_HEIGHT as u32);
    let n = bytes::be32_bytes(FB_STRIDE_BYTES as u32);
    let c = config_bytes();
    bytes::law_written_is_read(e, f + z + w + h + n, 0, 0, FB_PHYS);
    assert(c =~= e + a + (f + z + w + h + n));
    bytes::law_written_is_read(a + f, w + h + n, 0, 0, 0);
    assert(c =~= (a + f) + z + (w + h + n));
    bytes::law_written_is_read(a + f + z, h + n, 0, FB_WIDTH as u32, 0);
    assert(c =~= (a + f + z) + w + (h + n));
    bytes::law_written_is_read(a + f + z + w, n, 0, FB_HEIGHT as u32, 0);
    assert(c =~= (a + f + z + w) + h + n);
    bytes::law_written_is_read(a + f + z + w + h, e, 0, FB_STRIDE_BYTES as u32, 0);
    assert(c =~= (a + f + z + w + h) + n + e);
    assert(c.subrange(8, 12) =~= f);
    assert(f =~= seq!['4' as u8, '2' as u8, 'R' as u8, 'X' as u8]);
}

/// The request for a transfer, read back: the file in the upper half of the first word, with
/// bits 3 and 4 below it, and no others; the length at 4, and the address at 8.
pub proof fn law_transfer_is_read(key: u16, len: u32, address: u64)
    ensures
        ({
            let r = request_bytes(key, len, address);
            &&& r.len() == 16
            &&& bytes::be16_at(r, 0) == key
            &&& bytes::be16_at(r, 2) == 8 + 16
            &&& bytes::be32_at(r, 4) == len
            &&& bytes::be64_at(r, 8) == address
        }),
{
    let e = Seq::<u8>::empty();
    let control = (key * 0x1_0000 + DMA_CTL_SELECT + DMA_CTL_WRITE) as u32;
    let c = bytes::be32_bytes(control);
    let l = bytes::be32_bytes(len);
    let a = bytes::be64_bytes(address);
    let r = request_bytes(key, len, address);
    bytes::law_written_is_read(e, l + a, 0, control, 0);
    assert(r =~= e + c + (l + a));
    bytes::law_written_is_read(c, a, 0, len, 0);
    assert(r =~= c + l + a);
    bytes::law_written_is_read(c + l, e, 0, 0, address);
    assert(r =~= (c + l) + a + e);
}

/// The name of the file is the text "etc/ramfb" and a zero.
pub proof fn law_file_name(i: int)
    ensures
        ramfb_name().len() == 10,
        0 <= i < 9 ==> ramfb_name()[i] == "etc/ramfb"@[i] as u8,
        ramfb_name()[9] == 0,
{
    reveal_strlit("etc/ramfb");
}

// ---------------------------------------------------------------------------
// The boot screen
// ---------------------------------------------------------------------------

/// Steps of the start that the boot screen shows.
pub const PHASES: usize = 7;

/// The name of a step.
pub open spec fn phase_label(i: int) -> &'static str {
    if i == 0 {
        "UART"
    } else if i == 1 {
        "GIC"
    } else if i == 2 {
        "Timer"
    } else if i == 3 {
        "FB"
    } else if i == 4 {
        "MMU"
    } else if i == 5 {
        "ELF"
    } else {
        "Shell"
    }
}

/// Letters in the name of a step.
pub open spec fn phase_label_len(i: int) -> int {
    if i == 0 {
        4
    } else if i == 2 || i == 6 {
        5
    } else if i == 3 {
        2
    } else {
        3
    }
}

/// The box of a step: all in one row near the bottom, centred.
pub open spec fn phase_box(i: int) -> Rect {
    let total = 7 * 80 + 6 * 12;
    Rect {
        x: ((FB_WIDTH - total) / 2 + i * 92) as i32,
        y: (FB_HEIGHT - 80) as i32,
        w: 80,
        h: 24,
    }
}

/// Where a text of `len` letters starts in a box, so that it is centred; a text
/// that is too long starts before the box.
pub open spec fn centred(x: int, len: int) -> int {
    x + 40 - len * 4
}

/// The low 32 bits of a number, as a signed number.
pub open spec fn low_i32(n: int) -> int {
    let v = n % 0x1_0000_0000;
    if v < 0x8000_0000 {
        v
    } else {
        v - 0x1_0000_0000
    }
}

/// A number has 32 bits with its sign.
pub open spec fn in_i32(n: int) -> bool {
    i32::MIN <= n <= i32::MAX
}

/// Box `i`, and a text of `len` letters in it, are where 32 bits reach.
pub open spec fn label_fits(i: int, len: int) -> bool {
    &&& in_i32(i * 92)
    &&& in_i32(324 + i * 92)
    &&& in_i32(len * 8)
    &&& in_i32(80 - len * 8)
    &&& in_i32(centred(324 + i * 92, len))
}

/// The boxes of the steps lie on the screen, each apart from the others.
pub proof fn law_phase_boxes(i: int, j: int)
    requires
        0 <= i < j < PHASES,
    ensures
        phase_box(i).fits(FB_WIDTH as int, FB_HEIGHT as int),
        phase_box(j).fits(FB_WIDTH as int, FB_HEIGHT as int),
        phase_box(i).apart(phase_box(j)),
{
}

/// The name of a step stands in the middle of its box: with eight pixels to a letter, as much
/// of the box is free on its left as on its right. The row of boxes stands in the middle of
/// the screen, with 12 pixels between two of them.
pub proof fn law_names_are_centred(i: int)
    requires
        0 <= i < PHASES,
    ensures
        ({
            let b = phase_box(i);
            let n = phase_label(i)@.len() as int;
            let left = centred(b.x as int, phase_label_len(i));
            &&& left - b.x == (b.x + b.w) - (left + 8 * n)
            &&& i + 1 < PHASES ==> phase_box(i + 1).x == b.x + b.w + 12
            &&& phase_box(0).x == FB_WIDTH - (phase_box(6).x + phase_box(6).w)
        }),
{
    reveal_strlit("UART");
    reveal_strlit("GIC");
    reveal_strlit("Timer");
    reveal_strlit("FB");
    reveal_strlit("MMU");
    reveal_strlit("ELF");
    reveal_strlit("Shell");
}

/// The steps that draw the box of step `i`.
pub open spec fn phase_steps(i: int) -> Seq<Draw<'static>> {
    let b = phase_box(i);
    seq![
        Draw::StrokeRect { rect: b, paint: Paint::WindowFrame },
        Draw::Text {
            x: centred(b.x as int, phase_label_len(i)) as i32,
            y: (b.y + 4) as i32,
            text: phase_label(i),
            fg: Paint::LightGray,
            bg: Paint::DesktopBg,
        },
    ]
}

/// The steps that draw the first `n` boxes.
pub open spec fn phase_row(n: nat) -> Seq<Draw<'static>>
    decreases n,
{
    if n == 0 {
        Seq::empty()
    } else {
        phase_row((n - 1) as nat) + phase_steps(n - 1)
    }
}

/// The steps before the boxes: a bar, the name, twice for weight, the version, a
/// beet, and two lines on what this is.
pub open spec fn banner_steps() -> Seq<Draw<'static>> {
    let cx = (FB_WIDTH - 140) as i32;
    seq![
        Draw::Clear { paint: Paint::DesktopBg },
        Draw::FillRect {
            rect: Rect { x: 0, y: 0, w: FB_WIDTH as i32, h: 4 },
            paint: Paint::BeetPurple,
        },
        Draw::Text { x: 80, y: 80, text: "BeetOS", fg: Paint::White, bg: Paint::DesktopBg },
        Draw::Text { x: 81, y: 80, text: "BeetOS", fg: Paint::White, bg: Paint::DesktopBg },
        Draw::Text {
            x: 80,
            y: 104,
            text: "v0.1.0 - booting on QEMU virt (AArch64)",
            fg: Paint::LightGray,
            bg: Paint::DesktopBg,
        },
        Draw::FillCircle { cx, cy: 130, r: 48, paint: Paint::BeetPink },
        Draw::FillCircle { cx, cy: 130, r: 36, paint: Paint::BeetPurple },
        Draw::Line { x0: cx, y0: 82, x1: (cx + 18) as i32, y1: 50, paint: Paint::BrightGreen },
        Draw::Line { x0: cx, y0: 82, x1: (cx + 38) as i32, y1: 58, paint: Paint::Green },
        Draw::Text {
            x: 80,
            y: 152,
            text: "  Kernel: Xous (cherry-picked from KeyOS) + AArch64 port",
            fg: Paint::LightGray,
            bg: Paint::DesktopBg,
        },
        Draw::Text {
            x: 80,
            y: 176,
            text: "  Graphics: beetos::gfx + wgpu_compat shim",
            fg: Paint::DarkGray,
            bg: Paint::DesktopBg,
        },
    ]
}

/// The last step: a bar along the bottom.
pub open spec fn bottom_bar() -> Draw<'static> {
    Draw::FillRect {
        rect: Rect { x: 0, y: (FB_HEIGHT - 4) as i32, w: FB_WIDTH as i32, h: 4 },
        paint: Paint::BeetPurple,
    }
}

/// Row of the screen's text console below the boot screen's texts.
pub const CONSOLE_ROW: usize = 13;

/// A count with 32 bits and a sign: higher bits are dropped.
fn to_i32(n: usize) -> (r: i32)
    ensures
        r == low_i32(n as int),
{
    let v: i64 = (n as u64 % 0x1_0000_0000) as i64;
    if v < 0x8000_0000 {
        v as i32
    } else {
        (v - 0x1_0000_0000) as i32
    }
}

/// The box of a step.
fn box_of(i: i32) -> (r: Rect)
    requires
        in_i32(i * 92),
        in_i32(324 + i * 92),
    ensures
        r == phase_box(i as int),
{
    let total: i32 = 7 * 80 + 6 * 12;
    Rect {
        x: (FB_WIDTH as i32 - total) / 2 + i * 92,
        y: FB_HEIGHT as i32 - 80,
        w: 80,
        h: 24,
    }
}

/// Where a text of `len` letters starts in a box.
fn text_start(x: i32, len: i32) -> (r: i32)
    requires
        in_i32(len * 8),
        in_i32(80 - len * 8),
        in_i32(centred(x as int, len as int)),
    ensures
        r == centred(x as int, len as int),
{
    let width: i32 = len * 8;
    if width <= 80 {
        x + (80 - width) / 2
    } else {
        x - (width - 80) / 2
    }
}

/// The steps that draw the boot screen. Afterwards the text console goes on in
/// row [`CONSOLE_ROW`].
pub fn draw_boot_screen() -> (r: Vec<Draw<'static>>)
    ensures
        r@ == banner_steps() + phase_row(PHASES as nat) + seq![bottom_bar()],
{
    let bg: Paint = Paint::DesktopBg;
    let mut r: Vec<Draw<'static>> = Vec::new();
    r.push(Draw::Clear { paint: bg });
    r.push(
        Draw::FillRect {
            rect: Rect { x: 0, y: 0, w: FB_WIDTH as i32, h: 4 },
            paint: Paint::BeetPurple,
        },
    );
    let title_x: i32 = 80;
    let title_y: i32 = 80;
    r.push(Draw::Text { x: title_x, y: title_y, text: "BeetOS", fg: Paint::White, bg });
    r.push(Draw::Text { x: title_x + 1, y: title_y, text: "BeetOS", fg: Paint::White, bg });
    r.push(
        Draw::Text {
            x: title_x,
            y: title_y + 24,
            text: "v0.1.0 - booting on QEMU virt (AArch64)",
            fg: Paint::LightGray,
            bg,
        },
    );
    let cx: i32 = FB_WIDTH as i32 - 140;
    let cy: i32 = 130;
    r.push(Draw::FillCircle { cx, cy, r: 48, paint: Paint::BeetPink });
    r.push(Draw::FillCircle { cx, cy, r: 36, paint: Paint::BeetPurple });
    r.push(
        Draw::Line { x0: cx, y0: cy - 48, x1: cx + 18, y1: cy - 80, paint: Paint::BrightGreen },
    );
    r.push(Draw::Line { x0: cx, y0: cy - 48, x1: cx + 38, y1: cy - 72, paint: Paint::Green });
    r.push(
        Draw::Text {
            x: title_x,
            y: title_y + 72,
            text: "  Kernel: Xous (cherry-picked from KeyOS) + AArch64 port",
            fg: Paint::LightGray,
            bg,
        },
    );
    r.push(
        Draw::Text {
            x: title_x,
            y: title_y + 96,
            text: "  Graphics: beetos::gfx + wgpu_compat shim",
            fg: Paint::DarkGray,
            bg,
        },
    );
    assert(r@ =~= banner_steps());
    let labels: [&'static str; 7] = ["UART", "GIC", "Timer", "FB", "MMU", "ELF", "Shell"];
    let lens: [i32; 7] = [4, 3, 5, 2, 3, 3, 5];
    assert(r@ =~= banner_steps() + phase_row(0));
    let mut i: usize = 0;
    while i < PHASES
        invariant
            i <= PHASES,
            bg == Paint::DesktopBg,
            forall|j: int| 0 <= j < PHASES ==> #[trigger] labels@[j] == phase_label(j),
            forall|j: int| 0 <= j < PHASES ==> #[trigger] lens@[j] == phase_label_len(j),
            r@ == banner_steps() + phase_row(i as nat),
        decreases PHASES - i,
    {
        let b: Rect = box_of(i as i32);
        r.push(Draw::StrokeRect { rect: b, paint: Paint::WindowFrame });
        assert(lens@[i as int] == phase_label_len(i as int));
        assert(labels@[i as int] == phase_label(i as int));
        r.push(
            Draw::Text {
                x: text_start(b.x, lens[i]),
                y: b.y + (24 - 16) / 2,
                text: labels[i],
                fg: Paint::LightGray,
                bg,
            },
        );
        assert(r@ =~= banner_steps() + phase_row((i + 1) as nat));
        i = i + 1;
    }
    r.push(
        Draw::FillRect {
            rect: Rect { x: 0, y: FB_HEIGHT as i32 - 4, w: FB_WIDTH as i32, h: 4 },
            paint: Paint::BeetPurple,
        },
    );
    assert(r@ =~= banner_steps() + phase_row(PHASES as nat) + seq![bottom_bar()]);
    r
}

/// The steps that show step `i` of the start as done: its box filled, with a label
/// that counts as `len` letters.
pub open spec fn mark_steps<'a>(i: int, label: &'a str, len: int) -> Seq<Draw<'a>> {
    let b = phase_box(i);
    seq![
        Draw::FillRect { rect: b, paint: Paint::BeetPurple },
        Draw::Text {
            x: centred(b.x as int, len) as i32,
            y: (b.y + 4) as i32,
            text: label,
            fg: Paint::White,
            bg: Paint::BeetPurple,
        },
    ]
}

/// The steps that show a step of the start as done: its box filled, with a label.
pub fn mark_phase_complete<'a>(phase_idx: usize, label: &'a str) -> (r: Vec<Draw<'a>>)
    requires
        label_fits(low_i32(phase_idx as int), low_i32(label.spec_bytes().len() as int)),
    ensures
        r@ == mark_steps(
            low_i32(phase_idx as int),
            label,
            low_i32(label.spec_bytes().len() as int),
        ),
{
    let b: Rect = box_of(to_i32(phase_idx));
    let len: i32 = to_i32(label.as_bytes().len());
    let mut r: Vec<Draw<'a>> = Vec::new();
    r.push(Draw::FillRect { rect: b, paint: Paint::BeetPurple });
    r.push(
        Draw::Text {
            x: text_start(b.x, len),
            y: b.y + (24 - 16) / 2,
            text: label,
            fg: Paint::White,
            bg: Paint::BeetPurple,
        },
    );
    r
}

/// Marking a step fills the box that the boot screen framed for it.
pub proof fn law_mark_fills_its_box(i: int)
    requires
        0 <= i < PHASES,
    ensures
        (banner_steps() + phase_row(PHASES as nat) + seq![bottom_bar()]).contains(
            Draw::StrokeRect { rect: phase_box(i), paint: Paint::WindowFrame },
        ),
{
    lemma_row_has(PHASES as nat, i);
    let row = phase_row(PHASES as nat);
    let k = row.index_of(Draw::StrokeRect { rect: phase_box(i), paint: Paint::WindowFrame });
    let all = banner_steps() + row + seq![bottom_bar()];
    assert(all[banner_steps().len() + k] == row[k]);
}

/// The row of boxes has the frame of each.
proof fn lemma_row_has(n: nat, i: int)
    requires
        0 <= i < n,
    ensures
        phase_row(n).contains(Draw::StrokeRect { rect: phase_box(i), paint: Paint::WindowFrame }),
    decreases n,
{
    let f = Draw::StrokeRect { rect: phase_box(i), paint: Paint::WindowFrame };
    let before = phase_row((n - 1) as nat);
    if i < n - 1 {
        lemma_row_has((n - 1) as nat, i);
        let k = before.index_of(f);
        assert(phase_row(n)[k] == f);
    } else {
        assert(phase_row(n)[before.len() as int] == f);
    }
}

/// The steps that show a line of status below the banner: its place is cleared
/// first.
pub fn boot_status_line<'a>(line: i32, msg: &'a str, fg: Paint) -> (r: Vec<Draw<'a>>)
    requires
        in_i32(line * 18),
        in_i32(220 + line * 18),
    ensures
        r@ == seq![
            Draw::FillRect {
                rect: Rect {
                    x: 80,
                    y: (220 + line * 18) as i32,
                    w: (FB_WIDTH - 160) as i32,
                    h: 16,
                },
                paint: Paint::Black,
            },
            Draw::Text { x: 80, y: (220 + line * 18) as i32, text: msg, fg, bg: Paint::Black },
        ],
{
    let y: i32 = 220 + line * 18;
    let mut r: Vec<Draw<'a>> = Vec::new();
    r.push(
        Draw::FillRect {
            rect: Rect { x: 80, y, w: FB_WIDTH as i32 - 160, h: 16 },
            paint: Paint::Black,
        },
    );
    r.push(Draw::Text { x: 80, y, text: msg, fg, bg: Paint::Black });
    r
}

// ---------------------------------------------------------------------------
// The desktop
// ---------------------------------------------------------------------------

/// The lines of the first window.
pub open spec fn info_lines() -> Seq<&'static str> {
    seq![
        "BeetOS v0.1.0",
        "Platform: QEMU virt (AArch64)",
        "Kernel: Xous (cherry-picked KeyOS)",
        "Graphics: beetos::gfx software raster",
        "Windows: beetos::gui no_alloc MAX=8",
        "",
        "MMIO addresses: from FDT",
        "UART: PL011 at 0x09000000",
        "GIC:  v3 at 0x08000000",
        "FB:   ramfb 1280x800 XRGB8888",
    ]
}

/// The lines of the second window.
pub open spec fn log_lines() -> Seq<&'static str> {
    seq![
        "[ OK ] platform::init",
        "[ OK ] FDT parsed (UART/GIC from DTB)",
        "[ OK ] GIC v3 initialised",
        "[ OK ] Generic Timer ticking",
        "[ OK ] ramfb 1280x800 mapped",
        "[ OK ] MMU enabled, MemoryManager up",
        "[ OK ] log/procman/fs/shell launched",
        "[ OK ] First preemption switch",
        "[INFO] Desktop ready.",
    ]
}

/// The desktop after the start: seven windows, with keys going to the game.
pub open spec fn demo_desktop(d: Desktop) -> bool {
    let w = d.windows@;
    &&& d.background == Paint::DesktopBg
    &&& d.focus == 3
    &&& w.len() == 7
    &&& desktop::text_window(
        w[0],
        Rect { x: 40, y: 60, w: 420, h: 240 },
        "System Info",
        info_lines(),
    )
    &&& desktop::text_window(
        w[1],
        Rect { x: 40, y: 320, w: 420, h: 200 },
        "boot log",
        log_lines(),
    )
    &&& w[2] == (WindowSpec {
        rect: Rect { x: 40, y: 540, w: 420, h: 180 },
        title: "Game of Life",
        content: Content::Life,
    })
    &&& w[3] == (WindowSpec {
        rect: Rect { x: 490, y: 60, w: 360, h: 320 },
        title: "Snake",
        content: Content::Snake,
    })
    &&& w[4] == (WindowSpec {
        rect: Rect { x: 490, y: 395, w: 360, h: 220 },
        title: "Mandelbrot",
        content: Content::Mandelbrot,
    })
    &&& w[5] == (WindowSpec {
        rect: Rect { x: 940, y: 60, w: 290, h: 350 },
        title: "Calculator",
        content: Content::Calc("1234"),
    })
    &&& w[6] == (WindowSpec {
        rect: Rect { x: 940, y: 430, w: 290, h: 220 },
        title: "Notes",
        content: Content::Notes(
            "BeetOS notes:\n- Try Tab to switch\n  windows.\n- Calc keys: 0-9 + - * / =\n- This pad accepts text.",
        ),
    })
}

/// The desktop after the start. The screen's text console is closed for it.
pub fn populate_demo_desktop() -> (d: Desktop)
    ensures
        demo_desktop(d),
{
    let mut info: Vec<&'static str> = Vec::new();
    info.push("BeetOS v0.1.0");
    info.push("Platform: QEMU virt (AArch64)");
    info.push("Kernel: Xous (cherry-picked KeyOS)");
    info.push("Graphics: beetos::gfx software raster");
    info.push("Windows: beetos::gui no_alloc MAX=8");
    info.push("");
    info.push("MMIO addresses: from FDT");
    info.push("UART: PL011 at 0x09000000");
    info.push("GIC:  v3 at 0x08000000");
    info.push("FB:   ramfb 1280x800 XRGB8888");
    assert(info@ =~= info_lines());
    let mut log: Vec<&'static str> = Vec::new();
    log.push("[ OK ] platform::init");
    log.push("[ OK ] FDT parsed (UART/GIC from DTB)");
    log.push("[ OK ] GIC v3 initialised");
    log.push("[ OK ] Generic Timer ticking");
    log.push("[ OK ] ramfb 1280x800 mapped");
    log.push("[ OK ] MMU enabled, MemoryManager up");
    log.push("[ OK ] log/procman/fs/shell launched");
    log.push("[ OK ] First preemption switch");
    log.push("[INFO] Desktop ready.");
    assert(log@ =~= log_lines());
    let mut windows: Vec<WindowSpec> = Vec::new();
    windows.push(
        WindowSpec {
            rect: Rect { x: 40, y: 60, w: 420, h: 240 },
            title: "System Info",
            content: Content::Text(info),
        },
    );
    windows.push(
        WindowSpec {
            rect: Rect { x: 40, y: 320, w: 420, h: 200 },
            title: "boot log",
            content: Content::Text(log),
        },
    );
    windows.push(
        WindowSpec {
            rect: Rect { x: 40, y: 540, w: 420, h: 180 },
            title: "Game of Life",
            content: Content::Life,
        },
    );
    windows.push(
        WindowSpec {
            rect: Rect { x: 490, y: 60, w: 360, h: 320 },
            title: "Snake",
            content: Content::Snake,
        },
    );
    windows.push(
        WindowSpec {
            rect: Rect { x: 490, y: 395, w: 360, h: 220 },
            title: "Mandelbrot",
            content: Content::Mandelbrot,
        },
    );
    windows.push(
        WindowSpec {
            rect: Rect { x: 940, y: 60, w: 290, h: 350 },
            title: "Calculator",
            content: Content::Calc("1234"),
        },
    );
    windows.push(
        WindowSpec {
            rect: Rect { x: 940, y: 430, w: 290, h: 220 },
            title: "Notes",
            content: Content::Notes(
                "BeetOS notes:\n- Try Tab to switch\n  windows.\n- Calc keys: 0-9 + - * / =\n- This pad accepts text.",
            ),
        },
    );
    Desktop { background: Paint::DesktopBg, windows, focus: 3 }
}

/// Every window of the desktop lies on the screen, apart from the others.
pub proof fn law_demo_windows_fit(d: Desktop, i: int, j: int)
    requires
        demo_desktop(d),
        0 <= i < j < 7,
    ensures
        d.windows@[i].rect.fits(FB_WIDTH as int, FB_HEIGHT as int),
        d.windows@[j].rect.fits(FB_WIDTH as int, FB_HEIGHT as int),
        d.windows@[i].rect.apart(d.windows@[j].rect),
        d.focus < d.windows@.len(),
{
}

/// What a painting of the desktop at a tick shows: the seconds since the start,
/// and the frame of its animations. Without a framebuffer nothing is painted.
pub fn compose_desktop(ready: bool, tick: u64) -> (r: Option<(u64, u64)>)
    ensures
        r == (if ready {
            Some((tick / 100, tick / 10))
        } else {
            None
        }),
{
    if !ready {
        return None;
    }
    Some((tick / 100, tick / 10))
}

// ---------------------------------------------------------------------------
// When the desktop is painted
// ---------------------------------------------------------------------------

/// Keys that can be parked while the desktop is painted.
pub const PENDING_SLOTS: usize = 16;

/// When the desktop is painted: interrupts ask for a painting, and the idle loop
/// does it. Keys that come while it is painted are parked.
pub struct Compositor {
    /// There is a framebuffer.
    pub ready: bool,
    /// A painting is wanted.
    pub requested: bool,
    /// The animations have a step to take.
    pub anim_step_due: bool,
    /// The desktop is being painted.
    pub in_progress: bool,
    /// Parked keys.
    pub pending: ByteRing,
}

impl Compositor {
    /// The queue of parked keys is well formed.
    pub open spec fn wf(&self) -> bool {
        self.pending.wf() && self.pending.cap() == PENDING_SLOTS - 1
    }

    /// Nothing wanted, nothing parked.
    pub fn new(ready: bool) -> (r: Compositor)
        ensures
            r.wf(),
            r.ready == ready,
            !r.requested,
            !r.anim_step_due,
            !r.in_progress,
            r.pending@ == Seq::<u8>::empty(),
    {
        Compositor {
            ready,
            requested: false,
            anim_step_due: false,
            in_progress: false,
            pending: ByteRing::new(PENDING_SLOTS),
        }
    }

    /// There is a framebuffer.
    pub fn is_fb_ready(&self) -> (r: bool)
        ensures
            r == self.ready,
    {
        self.ready
    }

    /// Asks for a painting.
    pub fn request_compose(&mut self)
        ensures
            *final(self) == (Compositor { requested: true, ..*old(self) }),
    {
        self.requested = true;
    }

    /// The desktop is being painted.
    pub fn compose_in_progress(&self) -> (r: bool)
        ensures
            r == self.in_progress,
    {
        self.in_progress
    }

    /// Parks a key; refused where the queue is full.
    pub fn queue_key_during_compose(&mut self, c: u8) -> (r: bool)
        requires
            old(self).wf(),
        ensures
            final(self).wf(),
            final(self).ready == old(self).ready,
            final(self).requested == old(self).requested,
            final(self).anim_step_due == old(self).anim_step_due,
            final(self).in_progress == old(self).in_progress,
            r == (old(self).pending@.len() < PENDING_SLOTS - 1),
            final(self).pending@ == (if r {
                old(self).pending@.push(c)
            } else {
                old(self).pending@
            }),
    {
        let one: [u8; 1] = [c];
        let ghost before = self.pending@;
        let n: usize = self.pending.push_fitting(vstd::array::array_as_slice(&one));
        proof {
            old(self).pending.lemma_len();
            assert(one@ =~= seq![c]);
            assert(before + one@.take(1) =~= before.push(c));
            assert(before + one@.take(0) =~= before);
        }
        n == 1
    }

    /// At every tenth tick, asks for a painting and a step of the animations.
    pub fn tick_recompose_if_due(&mut self, tick: u64)
        ensures
            *final(self) == (if old(self).ready && tick % 10 == 0 {
                Compositor { requested: true, anim_step_due: true, ..*old(self) }
            } else {
                *old(self)
            }),
    {
        if !self.ready {
            return;
        }
        if tick % 10 == 0 {
            self.anim_step_due = true;
            self.requested = true;
        }
    }

    /// Starts a painting where one is wanted: whether the animations take a step
    /// first. The caller paints with interrupts on and then calls
    /// [`Compositor::end_compose`].
    pub fn idle_compose_if_requested(&mut self) -> (r: Option<bool>)
        ensures
            if old(self).ready && old(self).requested {
                &&& r == Some(old(self).anim_step_due)
                &&& *final(self) == (Compositor {
                    requested: false,
                    anim_step_due: false,
                    in_progress: true,
                    ..*old(self)
                })
            } else {
                r is None && *final(self) == *old(self)
            },
    {
        if !self.ready || !self.requested {
            return None;
        }
        self.requested = false;
        let step: bool = self.anim_step_due;
        self.anim_step_due = false;
        self.in_progress = true;
        Some(step)
    }

    /// Ends a painting: the parked keys, oldest first, which the caller delivers.
    pub fn end_compose(&mut self) -> (r: Vec<u8>)
        requires
            old(self).wf(),
        ensures
            final(self).wf(),
            final(self).ready == old(self).ready,
            final(self).requested == old(self).requested,
            final(self).anim_step_due == old(self).anim_step_due,
            !final(self).in_progress,
            final(self).pending@ == Seq::<u8>::empty(),
            r@ == old(self).pending@,
    {
        self.in_progress = false;
        proof {
            self.pending.lemma_len();
        }
        let r: Vec<u8> = self.pending.drain(PENDING_SLOTS);
        assert(r@ =~= old(self).pending@);
        assert(self.pending@ =~= Seq::<u8>::empty());
        r
    }
}

/// A painting that is asked for while another is under way is not lost: it is
/// wanted when that one has ended.
pub proof fn law_request_survives_painting(before: Compositor, during: Compositor, asked: Compositor)
    requires
        before.ready,
        before.requested,
        during == (Compositor {
            requested: false,
            anim_step_due: false,
            in_progress: true,
            ..before
        }),
        asked == (Compositor { requested: true, ..during }),
    ensures
        asked.ready && asked.requested,
        asked.in_progress,
        asked.pending == before.pending,
{
}

} // verus!
