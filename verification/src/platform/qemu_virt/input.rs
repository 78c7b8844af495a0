//! Virtio keyboard and tablet.
use crate::bytes;
use crate::mem::PAGE_SIZE;
use crate::mmio::{Access, Mmio};
use crate::platform::gic::Gic;
use crate::platform::qemu_virt::blk;
use crate::platform::qemu_virt::virtio;
use crate::platform::qemu_virt::virtio::device;
use crate::platform::qemu_virt::virtio::queue;
use crate::platform::qemu_virt::virtio::queue::{QueueModel, VirtqUsed, Virtqueue};
use vstd::prelude::*;

verus! {

pub const VIRTIO_INPUT_DEVICE_ID: u32 = 18;

/// A key or button went down or up.
pub const EV_KEY: u16 = 1;

/// An axis moved.
pub const EV_ABS: u16 = 3;

/// The end of a frame, that is of events that belong together.
pub const EV_SYN: u16 = 0;

/// The value of an event for a key that went down.
pub const VAL_DOWN: u32 = 1;

pub const KEY_LEFTSHIFT: u16 = 42;

pub const KEY_RIGHTSHIFT: u16 = 54;

pub const KEY_LEFTCTRL: u16 = 29;

pub const KEY_RIGHTCTRL: u16 = 97;

pub const BTN_LEFT: u16 = 0x110;

pub const ABS_X: u16 = 0;

pub const ABS_Y: u16 = 1;

/// Descriptors in an event queue.
pub const QUEUE_SIZE: u16 = 64;

/// Bytes of an event.
pub const EVENT_SIZE: usize = 8;

/// A keyboard and a tablet.
pub const MAX_INPUT_DEVS: usize = 2;

/// The largest value that a tablet reports for an axis.
pub const TABLET_MAX: u32 = 32767;

// ---------------------------------------------------------------------------
// Keys
// ---------------------------------------------------------------------------

/// What the keys of three rows of letters type, from the left.
pub open spec fn letters(code: int) -> Option<u8> {
    let top = seq!['q', 'w', 'e', 'r', 't', 'y', 'u', 'i', 'o', 'p'];
    let home = seq!['a', 's', 'd', 'f', 'g', 'h', 'j', 'k', 'l'];
    let bottom = seq!['z', 'x', 'c', 'v', 'b', 'n', 'm'];
    if 16 <= code < 26 {
        Some(top[code - 16] as u8)
    } else if 30 <= code < 39 {
        Some(home[code - 30] as u8)
    } else if 44 <= code < 51 {
        Some(bottom[code - 44] as u8)
    } else {
        None
    }
}

/// What the keys of the digit row type, plain and with shift.
pub open spec fn digits(code: int) -> Option<(u8, u8)> {
    let plain = seq!['1', '2', '3', '4', '5', '6', '7', '8', '9', '0', '-', '='];
    let shifted = seq!['!', '@', '#', '$', '%', '^', '&', '*', '(', ')', '_', '+'];
    if 2 <= code < 14 {
        Some((plain[code - 2] as u8, shifted[code - 2] as u8))
    } else {
        None
    }
}

/// What the other keys type, plain and with shift.
pub open spec fn others(code: int) -> Option<(u8, u8)> {
    if code == 1 {
        Some((0x1b, 0x1b))
    } else if code == 14 {
        Some((0x7f, 0x7f))
    } else if code == 15 {
        Some(('\t' as u8, '\t' as u8))
    } else if code == 28 || code == 96 {
        Some(('\n' as u8, 0xD5))
    } else if code == 57 {
        Some((' ' as u8, ' ' as u8))
    } else if code == 26 {
        Some(('[' as u8, '{' as u8))
    } else if code == 27 {
        Some((']' as u8, '}' as u8))
    } else if code == 39 {
        Some((';' as u8, ':' as u8))
    } else if code == 40 {
        Some(('\'' as u8, '"' as u8))
    } else if code == 41 {
        Some(('`' as u8, '~' as u8))
    } else if code == 43 {
        Some(('\\' as u8, '|' as u8))
    } else if code == 51 {
        Some((',' as u8, '<' as u8))
    } else if code == 52 {
        Some(('.' as u8, '>' as u8))
    } else if code == 53 {
        Some(('/' as u8, '?' as u8))
    } else {
        None
    }
}

/// What the keys of the number pad type.
pub open spec fn keypad(code: int) -> Option<u8> {
    let rows = seq![
        '7',
        '8',
        '9',
        '-',
        '4',
        '5',
        '6',
        '+',
        '1',
        '2',
        '3',
        '0',
        '.',
    ];
    if 71 <= code < 84 {
        Some(rows[code - 71] as u8)
    } else if code == 55 {
        Some('*' as u8)
    } else if code == 98 {
        Some('/' as u8)
    } else {
        None
    }
}

/// The number of a cursor key: up, down, right, left.
pub open spec fn arrow(code: int) -> Option<int> {
    if code == 103 {
        Some(1)
    } else if code == 108 {
        Some(2)
    } else if code == 106 {
        Some(3)
    } else if code == 105 {
        Some(4)
    } else {
        None
    }
}

/// The first of a pair, or the second with shift.
pub open spec fn picked(shift: bool, pair: (u8, u8)) -> Option<u8> {
    let (plain, shifted) = pair;
    Some(
        if shift {
            shifted
        } else {
            plain
        },
    )
}

/// What a key types on a US keyboard. The cursor keys are steering codes above
/// ASCII: plain ones steer, with shift they move the pointer, with control they
/// move the window.
pub open spec fn typed(code: u16, shift: bool, ctrl: bool) -> Option<u8> {
    let c = code as int;
    if letters(c) is Some {
        Some(
            if shift {
                (letters(c)->0 - 32) as u8
            } else {
                letters(c)->0
            },
        )
    } else if digits(c) is Some {
        picked(shift, digits(c)->0)
    } else if others(c) is Some {
        picked(shift, others(c)->0)
    } else if keypad(c) is Some {
        keypad(c)
    } else if arrow(c) is Some {
        Some(
            ((if ctrl {
                0xE0int
            } else if shift {
                0xD0int
            } else {
                0xC0int
            }) + arrow(c)->0) as u8,
        )
    } else {
        None
    }
}

/// `a`, or `b` with shift.
fn pick(shift: bool, a: char, b: char) -> (r: u8)
    ensures
        r == (if shift {
            b as u8
        } else {
            a as u8
        }),
{
    if shift {
        b as u8
    } else {
        a as u8
    }
}

/// A steering code.
fn steer(n: u8, shift: bool, ctrl: bool) -> (r: u8)
    requires
        n < 16,
    ensures
        r == (if ctrl {
            0xE0int
        } else if shift {
            0xD0int
        } else {
            0xC0int
        }) + n,
{
    if ctrl {
        0xE0 + n
    } else if shift {
        0xD0 + n
    } else {
        0xC0 + n
    }
}

/// What a key types.
pub fn keycode_to_ascii(code: u16, shift: bool, ctrl: bool) -> (r: Option<u8>)
    ensures
        r == typed(code, shift, ctrl),
{
    let c: u8 = match code {
        1 => 0x1b,
        14 => 0x7f,
        15 => '\t' as u8,
        28 | 96 => if shift {
            0xD5
        } else {
            '\n' as u8
        },
        57 => ' ' as u8,
        16 => pick(shift, 'q', 'Q'),
        17 => pick(shift, 'w', 'W'),
        18 => pick(shift, 'e', 'E'),
        19 => pick(shift, 'r', 'R'),
        20 => pick(shift, 't', 'T'),
        21 => pick(shift, 'y', 'Y'),
        22 => pick(shift, 'u', 'U'),
        23 => pick(shift, 'i', 'I'),
        24 => pick(shift, 'o', 'O'),
        25 => pick(shift, 'p', 'P'),
        30 => pick(shift, 'a', 'A'),
        31 => pick(shift, 's', 'S'),
        32 => pick(shift, 'd', 'D'),
        33 => pick(shift, 'f', 'F'),
        34 => pick(shift, 'g', 'G'),
        35 => pick(shift, 'h', 'H'),
        36 => pick(shift, 'j', 'J'),
        37 => pick(shift, 'k', 'K'),
        38 => pick(shift, 'l', 'L'),
        44 => pick(shift, 'z', 'Z'),
        45 => pick(shift, 'x', 'X'),
        46 => pick(shift, 'c', 'C'),
        47 => pick(shift, 'v', 'V'),
        48 => pick(shift, 'b', 'B'),
        49 => pick(shift, 'n', 'N'),
        50 => pick(shift, 'm', 'M'),
        2 => pick(shift, '1', '!'),
        3 => pick(shift, '2', '@'),
        4 => pick(shift, '3', '#'),
        5 => pick(shift, '4', '$'),
        6 => pick(shift, '5', '%'),
        7 => pick(shift, '6', '^'),
        8 => pick(shift, '7', '&'),
        9 => pick(shift, '8', '*'),
        10 => pick(shift, '9', '('),
        11 => pick(shift, '0', ')'),
        12 => pick(shift, '-', '_'),
        13 => pick(shift, '=', '+'),
        26 => pick(shift, '[', '{'),
        27 => pick(shift, ']', '}'),
        39 => pick(shift, ';', ':'),
        40 => pick(shift, '\'', '"'),
        41 => pick(shift, '`', '~'),
        43 => pick(shift, '\\', '|'),
        51 => pick(shift, ',', '<'),
        52 => pick(shift, '.', '>'),
        53 => pick(shift, '/', '?'),
        103 => steer(1, shift, ctrl),
        108 => steer(2, shift, ctrl),
        106 => steer(3, shift, ctrl),
        105 => steer(4, shift, ctrl),
        71 => '7' as u8,
        72 => '8' as u8,
        73 => '9' as u8,
        75 => '4' as u8,
        76 => '5' as u8,
        77 => '6' as u8,
        79 => '1' as u8,
        80 => '2' as u8,
        81 => '3' as u8,
        82 => '0' as u8,
        83 => '.' as u8,
        55 => '*' as u8,
        74 => '-' as u8,
        78 => '+' as u8,
        98 => '/' as u8,
        _ => {
            return None;
        },
    };
    Some(c)
}

/// Steering codes, and the click that shift and enter make, lie above ASCII; all
/// other keys type ASCII.
pub proof fn law_steering_is_above_ascii(code: u16, shift: bool, ctrl: bool)
    requires
        typed(code, shift, ctrl) is Some,
    ensures
        typed(code, shift, ctrl)->0 >= 0x80 <==> arrow(code as int) is Some || (shift && (code == 28
            || code == 96)),
{
}

/// Control changes nothing but the cursor keys.
pub proof fn law_control_moves_only_cursor_keys(code: u16, shift: bool)
    requires
        arrow(code as int) is None,
    ensures
        typed(code, shift, true) == typed(code, shift, false),
{
}

/// The rows of a US keyboard, from the left to the right: what the keys from 16, 30 and 44 on
/// type without shift and with it, and those of the digit row from 2 on.
pub proof fn law_keyboard_rows(i: int)
    ensures
        0 <= i < 10 ==> typed((16 + i) as u16, false, false) == Some("qwertyuiop"@[i] as u8)
            && typed((16 + i) as u16, true, false) == Some("QWERTYUIOP"@[i] as u8),
        0 <= i < 9 ==> typed((30 + i) as u16, false, false) == Some("asdfghjkl"@[i] as u8)
            && typed((30 + i) as u16, true, false) == Some("ASDFGHJKL"@[i] as u8),
        0 <= i < 7 ==> typed((44 + i) as u16, false, false) == Some("zxcvbnm"@[i] as u8) && typed(
            (44 + i) as u16,
            true,
            false,
        ) == Some("ZXCVBNM"@[i] as u8),
        0 <= i < 12 ==> typed((2 + i) as u16, false, false) == Some("1234567890-="@[i] as u8)
            && typed((2 + i) as u16, true, false) == Some("!@#$%^&*()_+"@[i] as u8),
{
    reveal_strlit("qwertyuiop");
    reveal_strlit("QWERTYUIOP");
    reveal_strlit("asdfghjkl");
    reveal_strlit("ASDFGHJKL");
    reveal_strlit("zxcvbnm");
    reveal_strlit("ZXCVBNM");
    reveal_strlit("1234567890-=");
    reveal_strlit("!@#$%^&*()_+");
}

/// The keypad, row by row, and the cursor keys up, down, left and right. Neither shift nor
/// control changes the keypad; both move the cursor keys, to codes that are 16 apart, and
/// control wins.
pub proof fn law_keypad_and_cursor_keys(i: int, shift: bool, ctrl: bool)
    ensures
        0 <= i < 13 ==> typed((71 + i) as u16, shift, ctrl) == Some("789-456+1230."@[i] as u8),
        typed(55, shift, ctrl) == Some('*' as u8),
        typed(98, shift, ctrl) == Some('/' as u8),
        typed(103, false, false) == Some(0xC1u8),
        typed(108, false, false) == Some(0xC2u8),
        typed(106, false, false) == Some(0xC3u8),
        typed(105, false, false) == Some(0xC4u8),
        forall|code: u16|
            code == 103 || code == 108 || code == 106 || code == 105 ==> {
                &&& (#[trigger] typed(code, true, false))->0 == typed(code, false, false)->0 + 16
                &&& typed(code, shift, true) == Some((typed(code, false, false)->0 + 32) as u8)
            },
{
    reveal_strlit("789-456+1230.");
}

/// The other keys: escape, backspace, tab and space, which shift does not change; return,
/// which makes a click with shift; and brackets, quotes and the rest of the punctuation,
/// plain and with shift. The modifiers themselves type nothing.
pub proof fn law_other_keys(shift: bool, ctrl: bool)
    ensures
        typed(1, shift, ctrl) == Some(27u8),
        typed(14, shift, ctrl) == Some(127u8),
        typed(15, shift, ctrl) == Some(9u8),
        typed(57, shift, ctrl) == Some(32u8),
        typed(28, false, ctrl) == Some(10u8) && typed(28, true, ctrl) == Some(0xD5u8),
        typed(96, shift, ctrl) == typed(28, shift, ctrl),
        typed(26, false, ctrl) == Some('[' as u8) && typed(26, true, ctrl) == Some('{' as u8),
        typed(27, false, ctrl) == Some(']' as u8) && typed(27, true, ctrl) == Some('}' as u8),
        typed(39, false, ctrl) == Some(';' as u8) && typed(39, true, ctrl) == Some(':' as u8),
        typed(40, false, ctrl) == Some(39u8) && typed(40, true, ctrl) == Some(34u8),
        typed(41, false, ctrl) == Some('`' as u8) && typed(41, true, ctrl) == Some('~' as u8),
        typed(43, false, ctrl) == Some(92u8) && typed(43, true, ctrl) == Some('|' as u8),
        typed(51, false, ctrl) == Some(',' as u8) && typed(51, true, ctrl) == Some('<' as u8),
        typed(52, false, ctrl) == Some('.' as u8) && typed(52, true, ctrl) == Some('>' as u8),
        typed(53, false, ctrl) == Some('/' as u8) && typed(53, true, ctrl) == Some('?' as u8),
        forall|code: u16|
            code == 42 || code == 54 || code == 29 || code == 97 ==> #[trigger] typed(
                code,
                shift,
                ctrl,
            ) is None,
{
}

// ---------------------------------------------------------------------------
// Devices
// ---------------------------------------------------------------------------

/// What a device is.
#[derive(Clone, Copy, PartialEq, Eq, Structural, Debug)]
pub enum DevKind {
    Keyboard,
    Tablet,
}

/// Something that happened at a device.
#[derive(Clone, Copy, PartialEq, Eq, Structural, Debug)]
pub struct InputEvent {
    pub kind: u16,
    pub code: u16,
    pub value: u32,
}

/// Decodes an event: kind, code and value, least significant bytes first.
pub fn decode_event(b: &[u8]) -> (r: InputEvent)
    requires
        b@.len() == EVENT_SIZE,
    ensures
        r.kind == bytes::le16_at(b@, 0),
        r.code == bytes::le16_at(b@, 2),
        r.value == bytes::le32_at(b@, 4),
{
    InputEvent { kind: bytes::le16(b, 0), code: bytes::le16(b, 2), value: bytes::le32(b, 4) }
}

/// Where a device's memory is.
pub struct InputMemory {
    pub queue: u64,
    /// One buffer for an event for each descriptor.
    pub bufs: Vec<u64>,
}

/// A device that has been set up.
pub struct InputDev {
    /// Offset of its transport.
    pub base: usize,
    /// Its interrupt.
    pub irq: u32,
    pub eventq: Virtqueue,
    pub kind: DevKind,
    /// A shift key is down.
    pub shift: bool,
    /// A control key is down.
    pub ctrl: bool,
    /// Where the tablet's pointer is.
    pub abs_x: u32,
    pub abs_y: u32,
    /// The pointer has moved since its place was last passed on.
    pub moved: bool,
    pub abs_max: u32,
}

impl InputDev {
    /// The queue is well formed, and the transport is one there is.
    pub open spec fn wf(&self) -> bool {
        &&& self.eventq.wf()
        &&& self.eventq.num == QUEUE_SIZE
        &&& self.base <= usize::MAX - virtio::TRANSPORT_SIZE
        &&& virtio::VIRTIO_IRQ_BASE <= self.irq < virtio::VIRTIO_IRQ_BASE + virtio::NUM_TRANSPORTS
    }
}

/// From `t0` to `t1` the device at transport `i` was set up, with every event
/// buffer offered.
pub open spec fn initialised(
    t0: Seq<Access>,
    t1: Seq<Access>,
    base: int,
    i: int,
    kind: DevKind,
    mem: InputMemory,
    r: Option<InputDev>,
) -> bool {
    exists|v: Seq<u32>| #[trigger] initialised_with(t0, t1, base, i, kind, mem, r, v)
}

/// The same, with what the device answered.
pub open spec fn initialised_with(
    t0: Seq<Access>,
    t1: Seq<Access>,
    base: int,
    i: int,
    kind: DevKind,
    mem: InputMemory,
    r: Option<InputDev>,
    v: Seq<u32>,
) -> bool {
    let ta = t0 + device::setup_accesses(base, 0, v[0], v[1]);
    if device::agreed(0, v[0], v[1]) is None {
        t1 == ta && r is None
    } else {
        &&& t1 == ta + device::queue_accesses(
            base,
            0,
            QUEUE_SIZE,
            mem.queue,
            PAGE_SIZE as u32,
            v[2],
        )
        &&& r is Some
        &&& r->0.wf()
        &&& r->0.base == base
        &&& r->0.irq == virtio::VIRTIO_IRQ_BASE + i
        &&& r->0.kind == kind
        &&& !r->0.shift
        &&& !r->0.ctrl
        &&& r->0.abs_x == 0
        &&& r->0.abs_y == 0
        &&& !r->0.moved
        &&& r->0.abs_max == TABLET_MAX
        &&& r->0.eventq@ == queue::stocked(
            queue::fresh(QUEUE_SIZE, mem.queue),
            mem.bufs@,
            8,
            QUEUE_SIZE as nat,
        )
    }
}

/// Sets the device at transport `i` up. The caller hands its queue to it and then
/// starts it.
fn init<M: Mmio>(mmio: &mut M, base: usize, i: usize, kind: DevKind, mem: &InputMemory) -> (r: Option<
    InputDev,
>)
    requires
        base <= usize::MAX - virtio::TRANSPORT_SIZE,
        i < virtio::NUM_TRANSPORTS,
        mem.bufs@.len() == QUEUE_SIZE,
    ensures
        initialised(old(mmio).trace(), final(mmio).trace(), base as int, i as int, kind, *mem, r),
{
    let ghost t0 = mmio.trace();
    let ghost n = t0.len() as int;
    let agreed: Option<u32> = device::init_device(mmio, base, 0);
    let ghost ta = mmio.trace();
    let ghost host = crate::mmio::value_of(ta[n + 4]);
    let ghost readback = crate::mmio::value_of(ta[n + 9]);
    if agreed.is_none() {
        assert(initialised_with(
            t0,
            ta,
            base as int,
            i as int,
            kind,
            *mem,
            None,
            seq![host, readback],
        ));
        return None;
    }
    let mut eventq: Virtqueue = Virtqueue::init(mem.queue, QUEUE_SIZE);
    device::setup_queue(mmio, base, 0, &eventq, PAGE_SIZE as u32);
    let ghost max = crate::mmio::value_of(mmio.trace()[ta.len() as int + 1]);
    let _ = eventq.stock(&mem.bufs, EVENT_SIZE as u32);
    let r: Option<InputDev> = Some(
        InputDev {
            base,
            irq: virtio::VIRTIO_IRQ_BASE + i as u32,
            eventq,
            kind,
            shift: false,
            ctrl: false,
            abs_x: 0,
            abs_y: 0,
            moved: false,
            abs_max: TABLET_MAX,
        },
    );
    assert(initialised_with(
        t0,
        mmio.trace(),
        base as int,
        i as int,
        kind,
        *mem,
        r,
        seq![host, readback, max],
    ));
    r
}

/// Starts a device whose queue it has been handed: notifies it, marks it ready
/// and enables its interrupt.
pub fn start<M: Mmio, D: Mmio, R: Mmio>(dev: &InputDev, mmio: &mut M, gic: &mut Gic<D, R>)
    requires
        dev.wf(),
    ensures
        ({
            let n = old(mmio).trace().len() as int;
            let t = final(mmio).trace();
            t == old(mmio).trace().push(Access::Write(dev.base + virtio::regs::QUEUE_NOTIFY, 0))
                + device::ready_accesses(dev.base as int, crate::mmio::value_of(t[n + 1]))
        }),
        final(gic).gicr.trace() == old(gic).gicr.trace(),
        final(gic).gicd.trace() == blk::irq_enabled(
            old(gic).gicd.trace(),
            dev.irq - virtio::VIRTIO_IRQ_BASE,
        ),
{
    device::notify(mmio, dev.base, 0);
    device::driver_ok(mmio, dev.base);
    gic.enable_irq(dev.irq);
}

/// The first device is the keyboard, the second the tablet.
pub open spec fn kind_of(slot: int) -> DevKind {
    if slot == 0 {
        DevKind::Keyboard
    } else {
        DevKind::Tablet
    }
}

/// From `t0` to `t1` the transports from `from` on were searched for devices for
/// the slots from `slot` on; `r` is what the slots hold.
pub open spec fn probed(
    t0: Seq<Access>,
    t1: Seq<Access>,
    base: int,
    from: int,
    slot: int,
    mems: Seq<InputMemory>,
    r: Seq<Option<InputDev>>,
) -> bool
    decreases virtio::NUM_TRANSPORTS - from,
{
    if slot >= MAX_INPUT_DEVS {
        t1 == t0 && r.len() == 0
    } else {
        exists|tm: Seq<Access>, at: Option<usize>|
            {
                &&& #[trigger] device::searched(t0, tm, base, from, VIRTIO_INPUT_DEVICE_ID, at)
                &&& match at {
                    None => t1 == tm && r.len() == 0,
                    Some(i) => exists|ta: Seq<Access>|
                        {
                            &&& r.len() > 0
                            &&& #[trigger] initialised(
                                tm,
                                ta,
                                device::transport_at(base, i as int),
                                i as int,
                                kind_of(slot),
                                mems[slot],
                                r[0],
                            )
                            &&& from <= i && i < virtio::NUM_TRANSPORTS
                            &&& probed(ta, t1, base, i + 1, slot + 1, mems, r.skip(1))
                        },
                }
            }
    }
}

/// Searches the transports from `from` on for devices for the slots from `slot`
/// on.
fn probe_from<M: Mmio>(
    mmio: &mut M,
    base: usize,
    from: usize,
    slot: usize,
    mems: &Vec<InputMemory>,
    out: &mut Vec<Option<InputDev>>,
)
    requires
        base <= usize::MAX - 0x8000,
        from <= virtio::NUM_TRANSPORTS,
        slot <= MAX_INPUT_DEVS,
        mems@.len() == MAX_INPUT_DEVS,
        forall|k: int| 0 <= k < MAX_INPUT_DEVS ==> (#[trigger] mems@[k]).bufs@.len() == QUEUE_SIZE,
    ensures
        old(out)@.len() <= final(out)@.len() <= old(out)@.len() + MAX_INPUT_DEVS - slot,
        final(out)@.take(old(out)@.len() as int) == old(out)@,
        probed(
            old(mmio).trace(),
            final(mmio).trace(),
            base as int,
            from as int,
            slot as int,
            mems@,
            final(out)@.skip(old(out)@.len() as int),
        ),
    decreases virtio::NUM_TRANSPORTS - from,
{
    let ghost out0 = out@;
    let ghost t0 = mmio.trace();
    if slot >= MAX_INPUT_DEVS {
        assert(out@.take(out0.len() as int) =~= out0);
        return;
    }
    let at: Option<usize> = device::next_transport(mmio, base, from, VIRTIO_INPUT_DEVICE_ID);
    let ghost tm = mmio.trace();
    assert(device::searched(t0, tm, base as int, from as int, VIRTIO_INPUT_DEVICE_ID, at));
    match at {
        None => {
            assert(out@.take(out0.len() as int) =~= out0);
        },
        Some(i) => {
            let kind: DevKind = if slot == 0 {
                DevKind::Keyboard
            } else {
                DevKind::Tablet
            };
            let d: Option<InputDev> = init(
                mmio,
                base + i * virtio::TRANSPORT_SIZE,
                i,
                kind,
                &mems[slot],
            );
            let ghost ta = mmio.trace();
            out.push(d);
            let ghost out1 = out@;
            probe_from(mmio, base, i + 1, slot + 1, mems, out);
            proof {
                let r = out@.skip(out0.len() as int);
                assert(out@.take(out0.len() as int) =~= out@.take(out1.len() as int).take(
                    out0.len() as int,
                ));
                assert(out1.take(out0.len() as int) =~= out0);
                assert(r[0] == out@.take(out1.len() as int)[out0.len() as int]);
                assert(r[0] == d);
                assert(r.skip(1) =~= out@.skip(out1.len() as int));
                assert(initialised(
                    tm,
                    ta,
                    device::transport_at(base as int, i as int),
                    i as int,
                    kind_of(slot as int),
                    mems@[slot as int],
                    r[0],
                ));
            }
        },
    }
}

/// Sets up the first two input devices: a keyboard, then a tablet. A slot whose
/// device could not be set up holds none.
pub fn probe_and_init<M: Mmio>(mmio: &mut M, base: usize, mems: &Vec<InputMemory>) -> (r: Vec<
    Option<InputDev>,
>)
    requires
        base <= usize::MAX - 0x8000,
        mems@.len() == MAX_INPUT_DEVS,
        forall|k: int| 0 <= k < MAX_INPUT_DEVS ==> (#[trigger] mems@[k]).bufs@.len() == QUEUE_SIZE,
    ensures
        r@.len() <= MAX_INPUT_DEVS,
        probed(old(mmio).trace(), final(mmio).trace(), base as int, 0, 0, mems@, r@),
{
    let mut out: Vec<Option<InputDev>> = Vec::new();
    probe_from(mmio, base, 0, 0, mems, &mut out);
    assert(out@.skip(0) =~= out@);
    out
}

/// Slot `k` holds a device of this kind.
pub open spec fn holds(devs: Seq<Option<InputDev>>, k: int, kind: DevKind) -> bool {
    devs[k] is Some && devs[k]->0.kind == kind
}

/// The interrupt of the first device of a kind.
fn irq_of(devs: &Vec<Option<InputDev>>, kind: DevKind) -> (r: Option<u32>)
    ensures
        match r {
            Some(irq) => exists|k: int|
                0 <= k < devs@.len() && #[trigger] holds(devs@, k, kind) && devs@[k]->0.irq == irq
                    && forall|j: int| 0 <= j < k ==> !holds(devs@, j, kind),
            None => forall|j: int| 0 <= j < devs@.len() ==> !holds(devs@, j, kind),
        },
{
    let mut i: usize = 0;
    while i < devs.len()
        invariant
            i <= devs@.len(),
            forall|j: int| 0 <= j < i ==> !holds(devs@, j, kind),
        decreases devs@.len() - i,
    {
        if let Some(d) = &devs[i] {
            if d.kind == kind {
                assert(holds(devs@, i as int, kind));
                return Some(d.irq);
            }
        }
        i = i + 1;
    }
    None
}

/// The keyboard's interrupt.
pub fn irq_number(devs: &Vec<Option<InputDev>>) -> (r: Option<u32>)
    ensures
        match r {
            Some(irq) => exists|k: int|
                0 <= k < devs@.len() && #[trigger] holds(devs@, k, DevKind::Keyboard)
                    && devs@[k]->0.irq == irq && forall|j: int|
                    0 <= j < k ==> !holds(devs@, j, DevKind::Keyboard),
            None => forall|j: int| 0 <= j < devs@.len() ==> !holds(devs@, j, DevKind::Keyboard),
        },
{
    irq_of(devs, DevKind::Keyboard)
}

/// The tablet's interrupt.
pub fn tablet_irq_number(devs: &Vec<Option<InputDev>>) -> (r: Option<u32>)
    ensures
        match r {
            Some(irq) => exists|k: int|
                0 <= k < devs@.len() && #[trigger] holds(devs@, k, DevKind::Tablet)
                    && devs@[k]->0.irq == irq && forall|j: int|
                    0 <= j < k ==> !holds(devs@, j, DevKind::Tablet),
            None => forall|j: int| 0 <= j < devs@.len() ==> !holds(devs@, j, DevKind::Tablet),
        },
{
    irq_of(devs, DevKind::Tablet)
}

/// The first slot whose device has this interrupt; the number of slots where none
/// has.
pub open spec fn slot_of_irq(devs: Seq<Option<InputDev>>, irq: u32, from: int) -> int
    decreases devs.len() - from,
{
    if from >= devs.len() {
        devs.len() as int
    } else if devs[from] is Some && devs[from]->0.irq == irq {
        from
    } else {
        slot_of_irq(devs, irq, from + 1)
    }
}

/// The accesses of an acknowledge of interrupt `irq`.
pub open spec fn acked(
    t0: Seq<Access>,
    t1: Seq<Access>,
    devs: Seq<Option<InputDev>>,
    irq: u32,
) -> bool {
    let k = slot_of_irq(devs, irq, 0);
    if k < devs.len() {
        t1 == t0 + device::ack_accesses(
            devs[k]->0.base as int,
            crate::mmio::value_of(t1[t0.len() as int]),
        )
    } else {
        t1 == t0
    }
}

/// Acknowledges an interrupt of the device that has it.
pub fn ack_irq_for<M: Mmio>(devs: &Vec<Option<InputDev>>, mmio: &mut M, irq: u32)
    requires
        forall|k: int|
            0 <= k < devs@.len() && (#[trigger] devs@[k]) is Some ==> devs@[k]->0.wf(),
    ensures
        acked(old(mmio).trace(), final(mmio).trace(), devs@, irq),
{
    let mut i: usize = 0;
    while i < devs.len()
        invariant
            i <= devs@.len(),
            slot_of_irq(devs@, irq, 0) == slot_of_irq(devs@, irq, i as int),
            mmio.trace() == old(mmio).trace(),
            forall|k: int|
                0 <= k < devs@.len() && (#[trigger] devs@[k]) is Some ==> devs@[k]->0.wf(),
        decreases devs@.len() - i,
    {
        if let Some(d) = &devs[i] {
            if d.irq == irq {
                assert(devs@[i as int] is Some);
                let _ = device::ack_interrupt(mmio, d.base);
                return;
            }
        }
        i = i + 1;
    }
}

/// Acknowledges an interrupt of the keyboard.
pub fn ack_irq<M: Mmio>(devs: &Vec<Option<InputDev>>, mmio: &mut M)
    requires
        forall|k: int|
            0 <= k < devs@.len() && (#[trigger] devs@[k]) is Some ==> devs@[k]->0.wf(),
    ensures
        (forall|j: int| 0 <= j < devs@.len() ==> !holds(devs@, j, DevKind::Keyboard))
            ==> final(mmio).trace() == old(mmio).trace(),
        forall|k: int|
            0 <= k < devs@.len() && #[trigger] holds(devs@, k, DevKind::Keyboard) && (forall|j: int|
                0 <= j < k ==> !holds(devs@, j, DevKind::Keyboard)) ==> acked(
                old(mmio).trace(),
                final(mmio).trace(),
                devs@,
                devs@[k]->0.irq,
            ),
{
    if let Some(irq) = irq_number(devs) {
        ack_irq_for(devs, mmio, irq);
    }
}

// ---------------------------------------------------------------------------
// Events
// ---------------------------------------------------------------------------

/// The device names only descriptors that there are, in what was not taken yet, and
/// each has an event.
pub open spec fn events_fit(q: QueueModel, used: VirtqUsed, events: Seq<InputEvent>) -> bool {
    &&& events.len() == QUEUE_SIZE
    &&& used.ring@.len() == QUEUE_SIZE
    &&& q.pending_below(used, QUEUE_SIZE as int)
}

/// The keyboard between two events.
#[verifier::ext_equal]
pub struct Keys {
    pub q: QueueModel,
    pub shift: bool,
    pub ctrl: bool,
}

impl Keys {
    /// After the event of descriptor `i`, whose buffer is offered again.
    pub open spec fn after(self, used: VirtqUsed, i: u16, e: InputEvent) -> Keys {
        Keys {
            q: self.q.looked(used).offered(i),
            shift: if e.code == KEY_LEFTSHIFT || e.code == KEY_RIGHTSHIFT {
                e.value == VAL_DOWN
            } else {
                self.shift
            },
            ctrl: if e.code == KEY_LEFTCTRL || e.code == KEY_RIGHTCTRL {
                e.value == VAL_DOWN
            } else {
                self.ctrl
            },
        }
    }

    /// The character that an event types.
    pub open spec fn types(self, e: InputEvent) -> Option<u8> {
        if e.kind == EV_KEY && e.value == VAL_DOWN {
            typed(e.code, self.shift, self.ctrl)
        } else {
            None
        }
    }

    /// The next character, the keyboard after it, and how many buffers were
    /// offered again. Events that type nothing are passed over.
    pub open spec fn next_char(self, used: VirtqUsed, events: Seq<InputEvent>) -> (
        Keys,
        Option<u8>,
        nat,
    )
        decreases self.q.pending(used),
    {
        match self.q.next_used(used) {
            None => (self, None, 0),
            Some((i, _)) => {
                let e = events[i as int];
                let k = self.after(used, i, e);
                if k.types(e) is Some {
                    (k, k.types(e), 1)
                } else {
                    let (a, c, n) = k.next_char(used, events);
                    (a, c, n + 1)
                }
            },
        }
    }
}

/// What a tablet did.
#[derive(Clone, Copy, PartialEq, Eq, Structural, Debug)]
pub enum TabletAction {
    /// The pointer is at this place of the tablet.
    Move { x: u32, y: u32 },
    /// The left button went down.
    Click,
}

/// The tablet between two events.
#[verifier::ext_equal]
pub struct Pen {
    pub q: QueueModel,
    pub x: u32,
    pub y: u32,
    /// It has moved since its place was last passed on.
    pub moved: bool,
}

/// An event says where the pointer is on an axis.
pub open spec fn is_motion(e: InputEvent) -> bool {
    e.kind == EV_ABS && (e.code == ABS_X || e.code == ABS_Y)
}

/// An event says that the left button went down.
pub open spec fn is_click(e: InputEvent) -> bool {
    e.kind == EV_KEY && e.code == BTN_LEFT && e.value == VAL_DOWN
}

impl Pen {
    /// After the event of descriptor `i`, whose buffer is offered again.
    pub open spec fn after(self, used: VirtqUsed, i: u16, e: InputEvent) -> Pen {
        Pen {
            q: self.q.looked(used).offered(i),
            x: if e.kind == EV_ABS && e.code == ABS_X {
                e.value
            } else {
                self.x
            },
            y: if e.kind == EV_ABS && e.code == ABS_Y {
                e.value
            } else {
                self.y
            },
            moved: is_motion(e) || (self.moved && e.kind != EV_SYN && !is_click(e)),
        }
    }

    /// The motion that has not been passed on.
    pub open spec fn motion(self) -> Seq<TabletAction> {
        if self.moved {
            seq![TabletAction::Move { x: self.x, y: self.y }]
        } else {
            Seq::empty()
        }
    }

    /// What an event means, given the tablet before it: the end of a frame passes the
    /// motion in it on, both axes at once, and a click comes after the motion before it.
    pub open spec fn does(self, e: InputEvent) -> Seq<TabletAction> {
        if e.kind == EV_SYN {
            self.motion()
        } else if is_click(e) {
            self.motion().push(TabletAction::Click)
        } else {
            Seq::empty()
        }
    }

    /// The tablet after all its events, what they meant, and how many buffers
    /// were offered again.
    pub open spec fn drained(self, used: VirtqUsed, events: Seq<InputEvent>) -> (
        Pen,
        Seq<TabletAction>,
        nat,
    )
        decreases self.q.pending(used),
    {
        match self.q.next_used(used) {
            None => (self, Seq::empty(), 0),
            Some((i, _)) => {
                let e = events[i as int];
                let p = self.after(used, i, e);
                let (a, rest, n) = p.drained(used, events);
                (a, self.does(e) + rest, n + 1)
            },
        }
    }
}

impl InputDev {
    /// The device as a keyboard.
    pub open spec fn keys(&self) -> Keys {
        Keys { q: self.eventq@, shift: self.shift, ctrl: self.ctrl }
    }

    /// The device as a tablet.
    pub open spec fn pen(&self) -> Pen {
        Pen { q: self.eventq@, x: self.abs_x, y: self.abs_y, moved: self.moved }
    }

    /// The device stayed what it is.
    pub open spec fn same_device(&self, other: InputDev) -> bool {
        &&& self.base == other.base
        &&& self.irq == other.irq
        &&& self.kind == other.kind
        &&& self.abs_max == other.abs_max
    }

    /// Takes the next character that was typed. Also how many buffers were
    /// offered again; the caller notifies the device of queue 0 for them.
    /// `events` are the events in the buffers of the descriptors.
    pub fn get_char(&mut self, used: &VirtqUsed, events: &Vec<InputEvent>) -> (r: (Option<u8>, u32))
        requires
            old(self).wf(),
            events_fit(old(self).eventq@, *used, events@),
        ensures
            final(self).wf(),
            final(self).same_device(*old(self)),
            final(self).abs_x == old(self).abs_x,
            final(self).abs_y == old(self).abs_y,
            final(self).moved == old(self).moved,
            if old(self).kind == DevKind::Keyboard {
                let (k, c, n) = old(self).keys().next_char(*used, events@);
                final(self).keys() == k && r.0 == c && r.1 == n
            } else {
                final(self).keys() == old(self).keys() && r.0 is None && r.1 == 0
            },
    {
        if self.kind != DevKind::Keyboard {
            return (None, 0);
        }
        let ghost k0 = self.keys();
        let mut n: u32 = 0;
        loop
            invariant
                self.wf(),
                events_fit(self.eventq@, *used, events@),
                self.same_device(*old(self)),
                self.abs_x == old(self).abs_x,
                self.abs_y == old(self).abs_y,
                self.moved == old(self).moved,
                self.kind == DevKind::Keyboard,
                k0 == old(self).keys(),
                n + self.eventq@.pending(*used) <= 0x1_0000,
                ({
                    let (ka, ca, na) = k0.next_char(*used, events@);
                    let (kb, cb, nb) = self.keys().next_char(*used, events@);
                    ka == kb && ca == cb && na == nb + n
                }),
            decreases self.eventq@.pending(*used),
        {
            let ghost before = self.keys();
            match self.eventq.pop_used(used) {
                None => {
                    return (None, n);
                },
                Some((i, _)) => {
                    proof {
                        queue::law_next_is_pending(
                            before.q,
                            *used,
                            QUEUE_SIZE as int,
                            self.eventq@,
                        );
                    }
                    let e: InputEvent = events[i as usize];
                    if e.code == KEY_LEFTSHIFT || e.code == KEY_RIGHTSHIFT {
                        self.shift = e.value == VAL_DOWN;
                    }
                    if e.code == KEY_LEFTCTRL || e.code == KEY_RIGHTCTRL {
                        self.ctrl = e.value == VAL_DOWN;
                    }
                    self.eventq.push_avail(i);
                    proof {
                        queue::law_next_is_pending(
                            before.q,
                            *used,
                            QUEUE_SIZE as int,
                            self.eventq@,
                        );
                    }
                    n = n + 1;
                    assert(self.keys() =~= before.after(*used, i, e));
                    if e.kind == EV_KEY && e.value == VAL_DOWN {
                        let c: Option<u8> = keycode_to_ascii(e.code, self.shift, self.ctrl);
                        if c.is_some() {
                            return (c, n);
                        }
                    }
                },
            }
        }
    }

    /// Takes everything that the tablet did, in order. Motion counts at the end of its
    /// frame; what is still open then is kept. Also how many buffers were offered again.
    pub fn drain_tablet_events(&mut self, used: &VirtqUsed, events: &Vec<InputEvent>) -> (r: (
        Vec<TabletAction>,
        u32,
    ))
        requires
            old(self).wf(),
            events_fit(old(self).eventq@, *used, events@),
        ensures
            final(self).wf(),
            final(self).same_device(*old(self)),
            final(self).shift == old(self).shift,
            final(self).ctrl == old(self).ctrl,
            if old(self).kind == DevKind::Tablet {
                let (p, a, n) = old(self).pen().drained(*used, events@);
                final(self).pen() == p && r.0@ == a && r.1 == n
            } else {
                final(self).pen() == old(self).pen() && r.0@.len() == 0 && r.1 == 0
            },
    {
        let mut out: Vec<TabletAction> = Vec::new();
        if self.kind != DevKind::Tablet {
            return (out, 0);
        }
        let ghost p0 = self.pen();
        let mut n: u32 = 0;
        proof {
            let (pa, aa, na) = p0.drained(*used, events@);
            assert(aa =~= out@ + aa);
        }
        loop
            invariant
                self.wf(),
                events_fit(self.eventq@, *used, events@),
                self.same_device(*old(self)),
                self.shift == old(self).shift,
                self.ctrl == old(self).ctrl,
                self.kind == DevKind::Tablet,
                p0 == old(self).pen(),
                n + self.eventq@.pending(*used) <= 0x1_0000,
                ({
                    let (pa, aa, na) = p0.drained(*used, events@);
                    let (pb, ab, nb) = self.pen().drained(*used, events@);
                    pa == pb && aa == out@ + ab && na == nb + n
                }),
            decreases self.eventq@.pending(*used),
        {
            let ghost before = self.pen();
            let ghost out0 = out@;
            match self.eventq.pop_used(used) {
                None => {
                    assert(out@ + Seq::<TabletAction>::empty() =~= out@);
                    return (out, n);
                },
                Some((i, _)) => {
                    proof {
                        queue::law_next_is_pending(
                            before.q,
                            *used,
                            QUEUE_SIZE as int,
                            self.eventq@,
                        );
                    }
                    let e: InputEvent = events[i as usize];
                    let click: bool = e.kind == EV_KEY && e.code == BTN_LEFT && e.value == VAL_DOWN;
                    if self.moved && (click || e.kind == EV_SYN) {
                        out.push(TabletAction::Move { x: self.abs_x, y: self.abs_y });
                        self.moved = false;
                    }
                    if click {
                        out.push(TabletAction::Click);
                    } else if e.kind == EV_ABS && e.code == ABS_X {
                        self.abs_x = e.value;
                        self.moved = true;
                    } else if e.kind == EV_ABS && e.code == ABS_Y {
                        self.abs_y = e.value;
                        self.moved = true;
                    }
                    self.eventq.push_avail(i);
                    proof {
                        queue::law_next_is_pending(
                            before.q,
                            *used,
                            QUEUE_SIZE as int,
                            self.eventq@,
                        );
                    }
                    n = n + 1;
                    proof {
                        let p = before.after(*used, i, e);
                        assert(self.pen() =~= p);
                        let (a, rest, m) = p.drained(*used, events@);
                        assert(out@ =~= out0 + before.does(e));
                        assert(out0 + (before.does(e) + rest) =~= out@ + rest);
                    }
                },
            }
        }
    }
}

/// A frame of motion on both axes moves the pointer once, to where it is at its end.
pub proof fn law_frame_moves_once(
    p: Pen,
    used: VirtqUsed,
    i: u16,
    j: u16,
    k: u16,
    x: InputEvent,
    y: InputEvent,
    end: InputEvent,
)
    requires
        !p.moved,
        x.kind == EV_ABS && x.code == ABS_X,
        y.kind == EV_ABS && y.code == ABS_Y,
        end.kind == EV_SYN,
    ensures
        ({
            let p1 = p.after(used, i, x);
            let p2 = p1.after(used, j, y);
            let p3 = p2.after(used, k, end);
            &&& p.does(x) + p1.does(y) + p2.does(end) == seq![
                TabletAction::Move { x: x.value, y: y.value },
            ]
            &&& !p3.moved
            &&& p3.x == x.value
            &&& p3.y == y.value
        }),
{
    let p1 = p.after(used, i, x);
    let p2 = p1.after(used, j, y);
    assert(p.does(x) + p1.does(y) + p2.does(end) =~= p2.motion());
}

/// A shift key counts from the event in which it goes down (1) to the one in which it is
/// released (0): a key that goes down in between types what it types with shift, before and
/// after that what it types without. Control counts likewise, and neither touches the other.
pub proof fn law_modifiers_are_held(
    k: Keys,
    used: VirtqUsed,
    i: u16,
    down: InputEvent,
    up: InputEvent,
    key: InputEvent,
)
    requires
        down.kind == 1 && down.value == 1,
        up.kind == 1 && up.value == 0,
        key.kind == 1 && key.value == 1,
        down.code == up.code,
        key.code != 42 && key.code != 54 && key.code != 29 && key.code != 97,
    ensures
        ({
            let held = k.after(used, i, down).after(used, i, key);
            let released = k.after(used, i, down).after(used, i, up).after(used, i, key);
            &&& down.code == 42 || down.code == 54 ==> held.types(key) == typed(
                key.code,
                true,
                k.ctrl,
            ) && released.types(key) == typed(key.code, false, k.ctrl)
            &&& down.code == 29 || down.code == 97 ==> held.types(key) == typed(
                key.code,
                k.shift,
                true,
            ) && released.types(key) == typed(key.code, k.shift, false)
        }),
{
}

/// Only a key that goes down types: its release (0) and its repeat (2) do not, nor does any
/// event that is not of a key.
pub proof fn law_only_keys_type(k: Keys, e: InputEvent)
    requires
        e.kind != 1 || e.value != 1,
    ensures
        k.types(e) is None,
{
}

/// The next character is that of the first event that types one; the buffer of each event up
/// to it is offered again, and no event behind it is touched.
pub proof fn law_first_typed_counts(k: Keys, used: VirtqUsed, events: Seq<InputEvent>)
    requires
        k.q.next_used(used) is Some,
    ensures
        ({
            let i = (k.q.next_used(used)->0).0;
            let e = events[i as int];
            let a = k.after(used, i, e);
            &&& a.q == k.q.looked(used).offered(i)
            &&& a.types(e) is Some ==> k.next_char(used, events) == (a, a.types(e), 1nat)
            &&& a.types(e) is None ==> k.next_char(used, events).1 == a.next_char(used, events).1
                && k.next_char(used, events).0 == a.next_char(used, events).0
                && k.next_char(used, events).2 == a.next_char(used, events).2 + 1
        }),
{
}

/// A click of the left button (0x110) comes behind the motion before it, once, when the
/// button goes down and not when it goes up.
pub proof fn law_click_follows_motion(p: Pen, used: VirtqUsed, i: u16, x: InputEvent, e: InputEvent)
    requires
        !p.moved,
        x.kind == 3 && x.code == 0,
        e.kind == 1 && e.code == 0x110,
    ensures
        ({
            let p1 = p.after(used, i, x);
            let done = p.does(x) + p1.does(e);
            &&& e.value == 1 ==> done == seq![
                TabletAction::Move { x: x.value, y: p.y },
                TabletAction::Click,
            ] && !p1.after(used, i, e).moved
            &&& e.value != 1 ==> done.len() == 0
        }),
{
    let p1 = p.after(used, i, x);
    let done = p.does(x) + p1.does(e);
    if e.value == 1 {
        assert(done =~= seq![TabletAction::Move { x: x.value, y: p.y }, TabletAction::Click]);
    }
}

} // verus!
