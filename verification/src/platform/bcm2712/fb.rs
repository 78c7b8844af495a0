//! The framebuffer that the firmware gives, and the desktop on it.
use crate::platform::bcm2712::mailbox::FbInfo;
use crate::platform::desktop;
use crate::platform::desktop::{Content, Desktop, Paint, Rect, WindowSpec};
use vstd::prelude::*;

verus! {

/// Pixels in a row of the screen that is asked for.
pub const FB_WIDTH: u32 = 1280;

/// Rows of the screen that is asked for.
pub const FB_HEIGHT: u32 = 720;

/// A framebuffer to paint on: address, width, height, and pixels from one row to
/// the next.
#[derive(Clone, Copy, PartialEq, Eq, Structural, Debug)]
pub struct Surface {
    pub addr: u64,
    pub width: u32,
    pub height: u32,
    pub stride: u32,
}

/// The screen: the framebuffer, where the firmware gave one.
pub struct Screen {
    pub info: Option<FbInfo>,
}

impl Screen {
    /// There is a framebuffer.
    pub fn is_fb_ready(&self) -> (r: bool)
        ensures
            r == (self.info is Some),
    {
        self.info.is_some()
    }

    /// Takes what the firmware answered: whether there is a framebuffer. A refusal
    /// leaves an earlier one in use.
    pub fn init(&mut self, answer: Option<FbInfo>) -> (r: bool)
        ensures
            r == (answer is Some),
            final(self).info == (if answer is Some {
                answer
            } else {
                old(self).info
            }),
    {
        match answer {
            Some(fb) => {
                self.info = Some(fb);
                true
            },
            None => false,
        }
    }

    /// What to paint on; without a framebuffer a surface without pixels.
    pub fn surface(&self) -> (r: Surface)
        ensures
            r == (match self.info {
                Some(fb) => Surface {
                    addr: fb.addr,
                    width: fb.width,
                    height: fb.height,
                    stride: fb.pitch / 4,
                },
                None => Surface { addr: 0, width: 0, height: 0, stride: 0 },
            }),
    {
        match &self.info {
            Some(fb) => Surface {
                addr: fb.addr,
                width: fb.width,
                height: fb.height,
                stride: fb.pitch / 4,
            },
            None => Surface { addr: 0, width: 0, height: 0, stride: 0 },
        }
    }

    /// What a painting at a tick shows: the seconds since the start, and the frame
    /// of the animations. None without a framebuffer.
    pub fn compose_desktop(&self, tick: u64) -> (r: Option<(u64, u64)>)
        ensures
            r == (if self.info is Some {
                Some((tick / 100, tick / 10))
            } else {
                None
            }),
    {
        if self.info.is_some() {
            Some((tick / 100, tick / 10))
        } else {
            None
        }
    }

    /// Whether the animations take a step and the desktop is painted at a tick.
    pub fn tick_recompose_if_due(&self, tick: u64) -> (r: bool)
        ensures
            r == (self.info is Some && tick % 10 == 0),
    {
        self.info.is_some() && tick % 10 == 0
    }
}

/// The lines of the first window.
pub open spec fn info_lines() -> Seq<&'static str> {
    seq![
        "BeetOS v0.1.0",
        "Platform: Raspberry Pi 5 (BCM2712)",
        "Kernel: Xous (cherry-picked KeyOS)",
        "Graphics: beetos::gfx + wgpu_compat",
        "FB: VideoCore mailbox-allocated",
        "",
        "UART: BCM PL011, FDT-discovered",
        "GIC:  v3 at 0x107FFF9000",
        "Mbox: 0x107C013880 (channel 8)",
    ]
}

/// The lines of the second window.
pub open spec fn log_lines() -> Seq<&'static str> {
    seq![
        "[ OK ] BCM2712 platform::init",
        "[ OK ] FDT parsed (PL011 / GIC v3)",
        "[ OK ] GIC v3 initialised",
        "[ OK ] Generic Timer ticking",
        "[ OK ] Mailbox FB allocated",
        "[ OK ] MMU enabled",
        "[ OK ] Shell launched (EL0)",
        "[INFO] Desktop ready.",
    ]
}

/// The desktop after the start: seven windows, with keys going to the game.
pub open spec fn demo_desktop(d: Desktop) -> bool {
    let w = d.windows@;
    &&& d.background == Paint::DesktopBg
    &&& d.focus == 3
    &&& w.len() == 7
    &&& desktop::text_window(
        w[0],
        Rect { x: 20, y: 40, w: 400, h: 220 },
        "System Info",
        info_lines(),
    )
    &&& desktop::text_window(
        w[1],
        Rect { x: 20, y: 280, w: 400, h: 200 },
        "boot log",
        log_lines(),
    )
    &&& w[2] == (WindowSpec {
        rect: Rect { x: 20, y: 500, w: 400, h: 180 },
        title: "Game of Life",
        content: Content::Life,
    })
    &&& w[3] == (WindowSpec {
        rect: Rect { x: 440, y: 40, w: 360, h: 320 },
        title: "Snake",
        content: Content::Snake,
    })
    &&& w[4] == (WindowSpec {
        rect: Rect { x: 440, y: 380, w: 360, h: 300 },
        title: "Mandelbrot",
        content: Content::Mandelbrot,
    })
    &&& w[5] == (WindowSpec {
        rect: Rect { x: 820, y: 40, w: 290, h: 340 },
        title: "Calculator",
        content: Content::Calc("1234"),
    })
    &&& w[6] == (WindowSpec {
        rect: Rect { x: 820, y: 400, w: 290, h: 280 },
        title: "Notes",
        content: Content::Notes(
            "BeetOS on RPi5 hardware:\n- Mailbox FB working\n- WindowManager live\n- Same widgets as QEMU\n- Tab to cycle, Shift+arrows\n  move cursor.",
        ),
    })
}

/// The desktop after the start; without a framebuffer there is none.
pub fn populate_demo_desktop(ready: bool) -> (r: Option<Desktop>)
    ensures
        match r {
            Some(d) => ready && demo_desktop(d),
            None => !ready,
        },
{
    if !ready {
        return None;
    }
    let mut info: Vec<&'static str> = Vec::new();
    info.push("BeetOS v0.1.0");
    info.push("Platform: Raspberry Pi 5 (BCM2712)");
    info.push("Kernel: Xous (cherry-picked KeyOS)");
    info.push("Graphics: beetos::gfx + wgpu_compat");
    info.push("FB: VideoCore mailbox-allocated");
    info.push("");
    info.push("UART: BCM PL011, FDT-discovered");
    info.push("GIC:  v3 at 0x107FFF9000");
    info.push("Mbox: 0x107C013880 (channel 8)");
    assert(info@ =~= info_lines());
    let mut log: Vec<&'static str> = Vec::new();
    log.push("[ OK ] BCM2712 platform::init");
    log.push("[ OK ] FDT parsed (PL011 / GIC v3)");
    log.push("[ OK ] GIC v3 initialised");
    log.push("[ OK ] Generic Timer ticking");
    log.push("[ OK ] Mailbox FB allocated");
    log.push("[ OK ] MMU enabled");
    log.push("[ OK ] Shell launched (EL0)");
    log.push("[INFO] Desktop ready.");
    assert(log@ =~= log_lines());
    let mut windows: Vec<WindowSpec> = Vec::new();
    windows.push(
        WindowSpec {
            rect: Rect { x: 20, y: 40, w: 400, h: 220 },
            title: "System Info",
            content: Content::Text(info),
        },
    );
    windows.push(
        WindowSpec {
            rect: Rect { x: 20, y: 280, w: 400, h: 200 },
            title: "boot log",
            content: Content::Text(log),
        },
    );
    windows.push(
        WindowSpec {
            rect: Rect { x: 20, y: 500, w: 400, h: 180 },
            title: "Game of Life",
            content: Content::Life,
        },
    );
    windows.push(
        WindowSpec {
            rect: Rect { x: 440, y: 40, w: 360, h: 320 },
            title: "Snake",
            content: Content::Snake,
        },
    );
    windows.push(
        WindowSpec {
            rect: Rect { x: 440, y: 380, w: 360, h: 300 },
            title: "Mandelbrot",
            content: Content::Mandelbrot,
        },
    );
    windows.push(
        WindowSpec {
            rect: Rect { x: 820, y: 40, w: 290, h: 340 },
            title: "Calculator",
            content: Content::Calc("1234"),
        },
    );
    windows.push(
        WindowSpec {
            rect: Rect { x: 820, y: 400, w: 290, h: 280 },
            title: "Notes",
            content: Content::Notes(
                "BeetOS on RPi5 hardware:\n- Mailbox FB working\n- WindowManager live\n- Same widgets as QEMU\n- Tab to cycle, Shift+arrows\n  move cursor.",
            ),
        },
    );
    Some(Desktop { background: Paint::DesktopBg, windows, focus: 3 })
}

/// Every window of the desktop lies on the screen, apart from the others.
pub proof fn law_demo_windows_fit(d: Desktop, i: int, j: int)
    requires
        demo_desktop(d),
        0 <= i < j < 7,
    ensures
        d.windows@[i].rect.fits(FB_WIDTH as int, FB_HEIGHT as int),
        d.windows@[j].rect.fits(FB_WIDTH as int, FB_HEIGHT as int),
        d.windows@[i].rect.apart(d.windows@[j].rect),
        d.focus < d.windows@.len(),
{
}

} // verus!
