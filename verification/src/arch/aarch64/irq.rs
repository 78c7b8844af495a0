//! What exceptions and interrupts lead to.
use crate::platform::arm_timer::TIMER_IRQ;
use crate::platform::bcm2712;
use crate::platform::gic::IRQ_SPURIOUS;
use crate::platform::qemu_virt::uart::UART_IRQ;
use vstd::prelude::*;

verus! {

/// A call of the kernel.
pub const EC_SVC: u64 = 0x15;

/// Code could not be fetched, in user or in kernel mode.
pub const EC_INSTRUCTION_ABORT: u64 = 0x20;

pub const EC_INSTRUCTION_ABORT_SAME: u64 = 0x21;

/// Data could not be reached, in user or in kernel mode.
pub const EC_DATA_ABORT: u64 = 0x24;

pub const EC_DATA_ABORT_SAME: u64 = 0x25;

/// Bits of the syndrome that belong to the instruction.
pub const ISS_BITS: u64 = 0x200_0000;

/// The process that runs when there is nothing to do.
pub const KERNEL_PID: u8 = 1;

/// What happened in user mode.
#[derive(Clone, Copy, PartialEq, Eq, Structural, Debug)]
pub enum Exception {
    /// A call of the kernel.
    Svc { iss: u64 },
    /// Code could not be fetched.
    InstructionAbort { dfsc: u64 },
    /// Data could not be reached.
    DataAbort { dfsc: u64 },
    /// Anything else.
    Unknown,
}

/// The class in a syndrome.
pub open spec fn exception_class(esr: u64) -> int {
    esr as int / 0x400_0000 % 64
}

/// The exception that a syndrome describes.
pub open spec fn described(esr: u64) -> Exception {
    let class = exception_class(esr);
    let iss = esr as int % ISS_BITS as int;
    if class == EC_SVC {
        Exception::Svc { iss: iss as u64 }
    } else if class == EC_INSTRUCTION_ABORT || class == EC_INSTRUCTION_ABORT_SAME {
        Exception::InstructionAbort { dfsc: (iss % 64) as u64 }
    } else if class == EC_DATA_ABORT || class == EC_DATA_ABORT_SAME {
        Exception::DataAbort { dfsc: (iss % 64) as u64 }
    } else {
        Exception::Unknown
    }
}

/// Reads a syndrome.
pub fn classify(esr: u64) -> (r: Exception)
    ensures
        r == described(esr),
{
    let class: u64 = esr / 0x400_0000 % 64;
    let iss: u64 = esr % ISS_BITS;
    if class == EC_SVC {
        Exception::Svc { iss }
    } else if class == EC_INSTRUCTION_ABORT || class == EC_INSTRUCTION_ABORT_SAME {
        Exception::InstructionAbort { dfsc: iss % 64 }
    } else if class == EC_DATA_ABORT || class == EC_DATA_ABORT_SAME {
        Exception::DataAbort { dfsc: iss % 64 }
    } else {
        Exception::Unknown
    }
}

/// What the report of a fault calls it.
pub fn abort_name(e: Exception) -> (r: Option<&'static str>)
    ensures
        match e {
            Exception::InstructionAbort { .. } => r is Some && r->0@ == "IABT"@,
            Exception::DataAbort { .. } => r is Some && r->0@ == "DABT"@,
            _ => r is None,
        },
{
    match e {
        Exception::InstructionAbort { .. } => Some("IABT"),
        Exception::DataAbort { .. } => Some("DABT"),
        _ => None,
    }
}

/// The processor state to go on with after an interrupt in kernel mode: interrupts
/// are enabled.
pub fn kernel_resume_spsr(spsr: u64) -> (r: u64)
    ensures
        r == spsr & !0x80u64,
        r & 0x80 == 0,
        r | 0x80 == spsr | 0x80,
{
    assert((spsr & !0x80u64) & 0x80 == 0) by (bit_vector);
    assert((spsr & !0x80u64) | 0x80 == spsr | 0x80) by (bit_vector);
    spsr & !0x80u64
}

/// The lines of the devices that have one.
#[derive(Clone, Copy, PartialEq, Eq, Structural, Debug)]
pub struct DeviceIrqs {
    pub blk: Option<u32>,
    pub net: Option<u32>,
    pub input: Option<u32>,
}

/// What an interrupt asks for.
#[derive(Clone, Copy, PartialEq, Eq, Structural, Debug)]
pub enum IrqWork {
    /// Nothing: no interrupt was pending.
    Spurious,
    /// Count a tick, and run what the network is waiting for.
    Tick,
    /// Pass on the characters of the serial port.
    Uart,
    /// Acknowledge the disk.
    Blk,
    /// Acknowledge the network.
    Net,
    /// Pass on the characters of the keyboard.
    Input,
    /// Report a line that nothing is known of.
    Unknown,
}

/// What to do about an interrupt.
#[derive(Clone, Copy, PartialEq, Eq, Structural, Debug)]
pub struct IrqPlan {
    pub work: IrqWork,
    /// The interrupt to end when the work is done.
    pub eoi: Option<u32>,
    /// The scheduler runs.
    pub is_timer: bool,
}

/// What an interrupt asks for on a machine with these lines.
pub open spec fn work_of(irq: u32, lines: DeviceIrqs) -> IrqWork {
    if irq == IRQ_SPURIOUS {
        IrqWork::Spurious
    } else if irq == TIMER_IRQ {
        IrqWork::Tick
    } else if irq == UART_IRQ {
        IrqWork::Uart
    } else if lines.blk == Some(irq) {
        IrqWork::Blk
    } else if lines.net == Some(irq) {
        IrqWork::Net
    } else if lines.input == Some(irq) {
        IrqWork::Input
    } else {
        IrqWork::Unknown
    }
}

/// What an interrupt asks for on a machine with nothing but a timer.
pub open spec fn timer_work_of(irq: u32) -> IrqWork {
    if irq == IRQ_SPURIOUS {
        IrqWork::Spurious
    } else if irq == TIMER_IRQ {
        IrqWork::Tick
    } else {
        IrqWork::Unknown
    }
}

/// The plan for an interrupt that asks for some work.
pub open spec fn planned(irq: u32, work: IrqWork) -> IrqPlan {
    IrqPlan {
        work,
        eoi: if work == IrqWork::Spurious {
            None
        } else {
            Some(irq)
        },
        is_timer: work == IrqWork::Tick,
    }
}

/// A line is the one of a device.
fn is_line(line: Option<u32>, irq: u32) -> (r: bool)
    ensures
        r == (line == Some(irq)),
{
    match line {
        Some(l) => l == irq,
        None => false,
    }
}

/// Decides about an interrupt of the QEMU machine.
pub fn handle_irq(irq: u32, lines: &DeviceIrqs) -> (r: IrqPlan)
    ensures
        r == planned(irq, work_of(irq, *lines)),
{
    if irq == IRQ_SPURIOUS {
        return IrqPlan { work: IrqWork::Spurious, eoi: None, is_timer: false };
    }
    let work: IrqWork = if irq == TIMER_IRQ {
        IrqWork::Tick
    } else if irq == UART_IRQ {
        IrqWork::Uart
    } else if is_line(lines.blk, irq) {
        IrqWork::Blk
    } else if is_line(lines.net, irq) {
        IrqWork::Net
    } else if is_line(lines.input, irq) {
        IrqWork::Input
    } else {
        IrqWork::Unknown
    };
    IrqPlan { work, eoi: Some(irq), is_timer: irq == TIMER_IRQ }
}

/// Decides about an interrupt of the BCM2712.
pub fn handle_irq_bcm2712(irq: u32) -> (r: IrqPlan)
    ensures
        r == planned(irq, timer_work_of(irq)),
{
    if irq == IRQ_SPURIOUS {
        return IrqPlan { work: IrqWork::Spurious, eoi: None, is_timer: false };
    }
    let work: IrqWork = if irq == TIMER_IRQ {
        IrqWork::Tick
    } else {
        IrqWork::Unknown
    };
    IrqPlan { work, eoi: Some(irq), is_timer: irq == TIMER_IRQ }
}

/// Every interrupt that was taken is ended, and nothing else is; only a tick runs
/// the scheduler; and a device is never given the line of the timer or of the
/// serial port, whatever line it claims.
pub proof fn law_interrupts_are_ended(irq: u32, lines: DeviceIrqs)
    ensures
        irq == IRQ_SPURIOUS <==> planned(irq, work_of(irq, lines)).eoi is None,
        irq != IRQ_SPURIOUS ==> planned(irq, work_of(irq, lines)).eoi == Some(irq),
        planned(irq, work_of(irq, lines)).is_timer <==> irq == TIMER_IRQ,
        irq == TIMER_IRQ ==> work_of(irq, lines) == IrqWork::Tick,
        irq == UART_IRQ ==> work_of(irq, lines) == IrqWork::Uart,
        planned(irq, timer_work_of(irq)).eoi == planned(irq, work_of(irq, lines)).eoi,
{
}

/// Which line is whose: 1023 is none, 30 the timer's and 33 the serial port's; any other is the
/// device's that has it, of the block device, the network card and the input device in this
/// order, and of nobody otherwise.
pub proof fn law_lines(irq: u32, lines: DeviceIrqs)
    ensures
        work_of(irq, lines) == IrqWork::Spurious <==> irq == 1023,
        work_of(irq, lines) == IrqWork::Tick <==> irq == 30,
        work_of(irq, lines) == IrqWork::Uart <==> irq == 33,
        irq != 1023 && irq != 30 && irq != 33 ==> {
            &&& lines.blk == Some(irq) ==> work_of(irq, lines) == IrqWork::Blk
            &&& lines.blk != Some(irq) && lines.net == Some(irq) ==> work_of(irq, lines)
                == IrqWork::Net
            &&& lines.blk != Some(irq) && lines.net != Some(irq) && lines.input == Some(irq)
                ==> work_of(irq, lines) == IrqWork::Input
            &&& lines.blk != Some(irq) && lines.net != Some(irq) && lines.input != Some(irq)
                ==> work_of(irq, lines) == IrqWork::Unknown
        },
{
}

/// A syndrome as the architecture defines it: the class in bits 26 to 31, the rest of what it
/// says in the 25 bits below. Class 0x15 is a system call, 0x20 and 0x21 are faults of an
/// instruction fetch and 0x24 and 0x25 of a data access, with the fault's code in the lowest
/// six bits.
pub proof fn law_syndromes(class: int, iss: int, upper: int, esr: u64)
    requires
        0 <= class < 64,
        0 <= iss < 0x200_0000,
        0 <= upper,
        esr == iss + class * 0x400_0000 + upper * 0x1_0000_0000,
    ensures
        class == 0x15 <==> described(esr) is Svc,
        class == 0x15 ==> described(esr) == (Exception::Svc { iss: iss as u64 }),
        class == 0x20 || class == 0x21 <==> described(esr) is InstructionAbort,
        class == 0x20 || class == 0x21 ==> described(esr) == (Exception::InstructionAbort {
            dfsc: (iss % 64) as u64,
        }),
        class == 0x24 || class == 0x25 <==> described(esr) is DataAbort,
        class == 0x24 || class == 0x25 ==> described(esr) == (Exception::DataAbort {
            dfsc: (iss % 64) as u64,
        }),
{
}

/// The report of a line that nothing is known of.
pub fn unknown_irq_report(irq: u32) -> (r: Vec<u8>)
    ensures
        r@ == seq![0x49u8, 0x52, 0x51, 0x20] + bcm2712::decimal(irq as nat) + seq![0x0Au8],
{
    let number: Vec<u8> = bcm2712::dec_u32(irq);
    let mut r: Vec<u8> = Vec::new();
    r.push('I' as u8);
    r.push('R' as u8);
    r.push('Q' as u8);
    r.push(' ' as u8);
    let mut i: usize = 0;
    assert(r@ =~= seq![0x49u8, 0x52, 0x51, 0x20] + number@.take(0));
    while i < number.len()
        invariant
            i <= number@.len(),
            r@ == seq![0x49u8, 0x52, 0x51, 0x20] + number@.take(i as int),
        decreases number@.len() - i,
    {
        r.push(number[i]);
        i = i + 1;
        assert(r@ =~= seq![0x49u8, 0x52, 0x51, 0x20] + number@.take(i as int));
    }
    assert(number@.take(i as int) =~= number@);
    r.push(0x0A);
    r
}

/// The name of a server.
pub type Sid = [u32; 4];

/// A server, as delivery sees it.
pub struct ServerEntry {
    pub sid: Sid,
    pub pid: u8,
    /// The threads that wait for a message; the first of them gets the next one.
    pub available: Vec<usize>,
}

/// A message of a number and four arguments.
#[derive(Clone, Copy, PartialEq, Eq, Structural, Debug)]
pub struct ScalarMessage {
    pub id: usize,
    pub arg1: usize,
    pub arg2: usize,
    pub arg3: usize,
    pub arg4: usize,
}

/// The bits of the notification that says that a message is queued.
pub const MESSAGE_QUEUED: usize = 1;

/// The sender of what the kernel sends itself.
pub const KERNEL_SENDER: usize = 0;

/// The thread that what the kernel queues comes from.
pub const KERNEL_TID: usize = 1;

/// What becomes of a character.
#[derive(Clone, Copy, PartialEq, Eq, Structural, Debug)]
pub enum Delivery {
    /// No server has that name: it is dropped.
    Dropped,
    /// A waiting thread gets the message as the result of its call, and runs again.
    Handed { sidx: usize, pid: u8, tid: usize, sender: usize, message: ScalarMessage },
    /// The message is queued, and the process is notified.
    Queued {
        sidx: usize,
        pid: u8,
        from_pid: u8,
        from_tid: usize,
        message: ScalarMessage,
        notify: usize,
    },
}

/// The message about a character.
pub open spec fn char_message(op: usize, c: u8) -> ScalarMessage {
    ScalarMessage { id: op, arg1: c as usize, arg2: 0, arg3: 0, arg4: 0 }
}

/// The server in a slot has a name.
pub open spec fn named(servers: Seq<Option<ServerEntry>>, i: int, sid: Sid) -> bool {
    servers[i] matches Some(s) && s.sid@ == sid@
}

/// A slot is the first whose server has a name.
pub open spec fn first_named(servers: Seq<Option<ServerEntry>>, i: int, sid: Sid) -> bool {
    &&& 0 <= i < servers.len()
    &&& named(servers, i, sid)
    &&& forall|j: int| 0 <= j < i ==> !(#[trigger] named(servers, j, sid))
}

/// What becomes of a character for the server in a slot.
pub open spec fn delivered(sidx: usize, s: ServerEntry, c: u8, op: usize) -> Delivery {
    if s.available@.len() > 0 {
        Delivery::Handed {
            sidx,
            pid: s.pid,
            tid: s.available@[0],
            sender: KERNEL_SENDER,
            message: char_message(op, c),
        }
    } else {
        Delivery::Queued {
            sidx,
            pid: s.pid,
            from_pid: KERNEL_PID,
            from_tid: KERNEL_TID,
            message: char_message(op, c),
            notify: MESSAGE_QUEUED,
        }
    }
}

/// What becomes of a character for the server of a name.
pub open spec fn delivery_of(
    servers: Seq<Option<ServerEntry>>,
    sid: Sid,
    c: u8,
    op: usize,
    d: Delivery,
) -> bool {
    if exists|i: int| 0 <= i < servers.len() && #[trigger] named(servers, i, sid) {
        exists|i: usize| #[trigger]
            first_named(servers, i as int, sid) && d == delivered(i, servers[i as int]->0, c, op)
    } else {
        d == Delivery::Dropped
    }
}

/// Names are the same.
fn same_sid(a: &Sid, b: &Sid) -> (r: bool)
    ensures
        r == (a@ == b@),
{
    let r: bool = a[0] == b[0] && a[1] == b[1] && a[2] == b[2] && a[3] == b[3];
    if r {
        assert(a@ =~= b@);
    }
    r
}

/// Decides what becomes of a character for the server of a name. `op` is the number
/// of the message about a character.
pub fn deliver_char_to_sid(
    servers: &[Option<ServerEntry>],
    sid: Sid,
    c: u8,
    op: usize,
) -> (r: Delivery)
    ensures
        delivery_of(servers@, sid, c, op, r),
{
    let mut i: usize = 0;
    while i < servers.len()
        invariant
            i <= servers@.len(),
            forall|j: int| 0 <= j < i ==> !(#[trigger] named(servers@, j, sid)),
        decreases servers@.len() - i,
    {
        if let Some(s) = &servers[i] {
            if same_sid(&s.sid, &sid) {
                assert(named(servers@, i as int, sid));
                assert(first_named(servers@, i as int, sid));
                let message: ScalarMessage = ScalarMessage {
                    id: op,
                    arg1: c as usize,
                    arg2: 0,
                    arg3: 0,
                    arg4: 0,
                };
                return if s.available.len() > 0 {
                    Delivery::Handed {
                        sidx: i,
                        pid: s.pid,
                        tid: s.available[0],
                        sender: KERNEL_SENDER,
                        message,
                    }
                } else {
                    Delivery::Queued {
                        sidx: i,
                        pid: s.pid,
                        from_pid: KERNEL_PID,
                        from_tid: KERNEL_TID,
                        message,
                        notify: MESSAGE_QUEUED,
                    }
                };
            }
        }
        i = i + 1;
    }
    Delivery::Dropped
}

/// A character for a server that is there reaches it unchanged, under the operation that the
/// server expects: a thread of that server that waits gets it, the one that waits longest, and
/// where none does it goes into the queue of that server, as a message of the kernel's.
pub proof fn law_character_reaches_its_server(
    servers: Seq<Option<ServerEntry>>,
    sid: Sid,
    c: u8,
    op: usize,
    d: Delivery,
    i: int,
)
    requires
        delivery_of(servers, sid, c, op, d),
        0 <= i < servers.len(),
        i <= usize::MAX,
        servers[i] is Some,
        servers[i]->0.sid@ == sid@,
        forall|j: int|
            0 <= j < i ==> (#[trigger] servers[j] is Some ==> servers[j]->0.sid@ != sid@),
    ensures
        ({
            let s = servers[i]->0;
            match d {
                Delivery::Dropped => false,
                Delivery::Handed { sidx, pid, tid, sender, message } => {
                    &&& s.available@.len() > 0
                    &&& sidx == i
                    &&& pid == s.pid
                    &&& tid == s.available@[0]
                    &&& sender == 0
                    &&& message.id == op
                    &&& message.arg1 == c
                    &&& message.arg2 == 0 && message.arg3 == 0 && message.arg4 == 0
                },
                Delivery::Queued { sidx, pid, from_pid, from_tid, message, notify } => {
                    &&& s.available@.len() == 0
                    &&& sidx == i
                    &&& pid == s.pid
                    &&& from_pid == 1
                    &&& from_tid == 1
                    &&& notify == 1
                    &&& message.id == op
                    &&& message.arg1 == c
                    &&& message.arg2 == 0 && message.arg3 == 0 && message.arg4 == 0
                },
            }
        }),
{
    assert(named(servers, i, sid));
    let k = choose|k: usize| #[trigger]
        first_named(servers, k as int, sid) && d == delivered(k, servers[k as int]->0, c, op);
    if k < i {
        assert(named(servers, k as int, sid));
        assert(servers[k as int] is Some);
    }
    if i < k {
        assert(!named(servers, i, sid));
    }
}

/// What becomes of a character is decided by the servers alone: it goes to one
/// server, once, and is dropped only where no server has the name.
pub proof fn law_one_delivery(
    servers: Seq<Option<ServerEntry>>,
    sid: Sid,
    c: u8,
    op: usize,
    a: Delivery,
    b: Delivery,
)
    requires
        delivery_of(servers, sid, c, op, a),
        delivery_of(servers, sid, c, op, b),
    ensures
        a == b,
        a == Delivery::Dropped <==> forall|i: int|
            0 <= i < servers.len() ==> !(#[trigger] named(servers, i, sid)),
{
    if exists|i: int| 0 <= i < servers.len() && #[trigger] named(servers, i, sid) {
        let i = choose|i: usize| #[trigger]
            first_named(servers, i as int, sid) && a == delivered(
                i,
                servers[i as int]->0,
                c,
                op,
            );
        let j = choose|j: usize| #[trigger]
            first_named(servers, j as int, sid) && b == delivered(
                j,
                servers[j as int]->0,
                c,
                op,
            );
        if i < j {
            assert(named(servers, i as int, sid));
        }
        if j < i {
            assert(named(servers, j as int, sid));
        }
    }
}

/// The servers after a delivery: a thread that was handed a message no longer waits for
/// one, and nothing else changes.
pub open spec fn after_delivery(
    servers: Seq<Option<ServerEntry>>,
    d: Delivery,
    after: Seq<Option<ServerEntry>>,
) -> bool {
    match d {
        Delivery::Handed { sidx, tid, .. } if sidx < servers.len() && servers[sidx as int] is Some
            && servers[sidx as int]->0.available@.len() > 0
            && servers[sidx as int]->0.available@[0] == tid => {
            let s = servers[sidx as int]->0;
            &&& after.len() == servers.len()
            &&& after[sidx as int] matches Some(t) && t.sid == s.sid && t.pid == s.pid
                && t.available@ == s.available@.skip(1)
            &&& forall|i: int|
                0 <= i < servers.len() && i != sidx ==> #[trigger] after[i] == servers[i]
        },
        _ => after == servers,
    }
}

/// Takes the thread that was handed a message off those that wait for one.
pub fn note_delivery(servers: &mut Vec<Option<ServerEntry>>, d: Delivery)
    ensures
        after_delivery(old(servers)@, d, final(servers)@),
{
    if let Delivery::Handed { sidx, tid, .. } = d {
        if sidx >= servers.len() {
            return;
        }
        let waits: bool = match &servers[sidx] {
            Some(s) => s.available.len() > 0 && s.available[0] == tid,
            None => false,
        };
        if !waits {
            return;
        }
        if let Some(s) = &mut servers[sidx] {
            let ghost waiting = s.available@;
            let _ = s.available.remove(0);
            assert(s.available@ =~= waiting.skip(1));
        }
    }
}

/// A thread is handed one message for each time that it waits: where no thread waits
/// twice, one that was handed a character does not wait any more, and the next character
/// goes to another thread of the server, or into its queue.
pub proof fn law_thread_is_handed_one_message(
    servers: Seq<Option<ServerEntry>>,
    sid: Sid,
    c: u8,
    op: usize,
    d: Delivery,
    after: Seq<Option<ServerEntry>>,
    next: u8,
    e: Delivery,
)
    requires
        delivery_of(servers, sid, c, op, d),
        after_delivery(servers, d, after),
        delivery_of(after, sid, next, op, e),
        forall|i: int|
            0 <= i < servers.len() && servers[i] is Some ==> (
            #[trigger] servers[i])->0.available@.no_duplicates(),
        d is Handed,
    ensures
        e is Handed || e is Queued,
        e is Handed ==> e->Handed_sidx == d->Handed_sidx && e->Handed_pid == d->Handed_pid
            && e->Handed_tid != d->Handed_tid,
        e is Queued ==> e->Queued_sidx == d->Handed_sidx && e->Queued_pid == d->Handed_pid,
{
    let i = choose|i: usize| #[trigger]
        first_named(servers, i as int, sid) && d == delivered(i, servers[i as int]->0, c, op);
    assert(first_named(servers, i as int, sid) && d == delivered(i, servers[i as int]->0, c, op));
    assert(named(after, i as int, sid));
    assert forall|j: int| 0 <= j < i implies !(#[trigger] named(after, j, sid)) by {
        assert(!named(servers, j, sid));
    }
    let k = choose|k: usize| #[trigger]
        first_named(after, k as int, sid) && e == delivered(k, after[k as int]->0, next, op);
    assert(first_named(after, k as int, sid) && e == delivered(k, after[k as int]->0, next, op));
    if i < k {
        assert(named(after, i as int, sid));
    }
    assert(k == i);
    let s = servers[i as int]->0;
    assert(s.available@.no_duplicates());
    if s.available@.len() > 1 {
        assert(s.available@.skip(1)[0] == s.available@[1]);
    }
}

/// Where a character goes.
#[derive(Clone, Copy, PartialEq, Eq, Structural, Debug)]
pub enum Dispatch {
    /// It is kept until a process asks for input.
    Buffered(u8),
    /// It goes to the server that asked for input.
    Delivered(Delivery),
}

/// Decides where a character goes, that is, to the server that asked for input, or
/// into the buffer where none has.
pub fn dispatch_input_char(
    focus: Option<Sid>,
    servers: &[Option<ServerEntry>],
    c: u8,
    op: usize,
) -> (r: Dispatch)
    ensures
        match focus {
            Some(sid) => r matches Dispatch::Delivered(d) && delivery_of(servers@, sid, c, op, d),
            None => r == Dispatch::Buffered(c),
        },
{
    match focus {
        Some(sid) => Dispatch::Delivered(deliver_char_to_sid(servers, sid, c, op)),
        None => Dispatch::Buffered(c),
    }
}

/// The thread that a notification woke up, and what it is told.
pub fn notified(pid: u8, woken: Option<(usize, usize)>) -> (r: Option<(u8, usize, usize)>)
    ensures
        r == (match woken {
            Some(w) => Some((pid, w.0, w.1)),
            None => None,
        }),
{
    match woken {
        Some((tid, bits)) => Some((pid, tid, bits)),
        None => None,
    }
}

/// Whether to wait for interrupts because nothing else runs.
pub fn must_idle(pid: u8) -> (r: bool)
    ensures
        r == (pid == KERNEL_PID),
{
    pid == KERNEL_PID
}

/// Remembers whether a switch that the timer caused was reported.
pub struct PreemptLog {
    pub pending: bool,
}

impl PreemptLog {
    /// Nothing was reported.
    pub fn new() -> (r: PreemptLog)
        ensures
            r.pending,
    {
        PreemptLog { pending: true }
    }

    /// Whether to report a switch: the first that the timer causes.
    pub fn note(&mut self, was_timer: bool, from: u8, to: u8) -> (r: bool)
        ensures
            r == (old(self).pending && was_timer && from != to),
            final(self).pending == (old(self).pending && !(was_timer && from != to)),
    {
        if was_timer && from != to {
            let first: bool = self.pending;
            self.pending = false;
            first
        } else {
            false
        }
    }
}

} // verus!
