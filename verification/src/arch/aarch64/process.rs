//! Processes and the register contexts of their threads.
use crate::error::Error;
use vstd::prelude::*;

verus! {

/// The most processes.
pub const MAX_PROCESS_COUNT: usize = 64;

/// The most threads of a process.
pub const MAX_THREAD_COUNT: usize = 32;

/// The thread that handles interrupts.
pub const IRQ_TID: usize = 1;

/// The first thread of a process.
pub const INITIAL_TID: usize = 2;

/// A range of memory.
#[derive(Clone, Copy, PartialEq, Eq, Structural, Debug)]
pub struct MemoryRange {
    pub addr: u64,
    pub len: u64,
}

/// The registers of a thread.
#[derive(Clone, Copy)]
pub struct Thread {
    /// General-purpose registers.
    pub gpr: [u64; 31],
    /// Stack pointer.
    pub sp: u64,
    /// Where the thread goes on.
    pub elr: u64,
    /// Processor state.
    pub spsr: u64,
    /// Pointer to the thread's own data.
    pub tpidr: u64,
    pub fpcr: u64,
    pub fpsr: u64,
    /// Keeps the frame aligned.
    pub _pad: u64,
    /// Floating-point registers, two words each.
    pub vregs: [u64; 64],
    /// The slot is in use.
    pub allocated: bool,
    /// The thread's stack, where it is known.
    pub stack: Option<MemoryRange>,
}

/// The registers of a thread, as contracts see them.
#[verifier::ext_equal]
pub struct ThreadModel {
    pub gpr: Seq<u64>,
    pub sp: u64,
    pub elr: u64,
    pub spsr: u64,
    pub tpidr: u64,
    pub fpcr: u64,
    pub fpsr: u64,
    pub pad: u64,
    pub vregs: Seq<u64>,
    pub allocated: bool,
    pub stack: Option<MemoryRange>,
}

impl View for Thread {
    type V = ThreadModel;

    open spec fn view(&self) -> ThreadModel {
        ThreadModel {
            gpr: self.gpr@,
            sp: self.sp,
            elr: self.elr,
            spsr: self.spsr,
            tpidr: self.tpidr,
            fpcr: self.fpcr,
            fpsr: self.fpsr,
            pad: self._pad,
            vregs: self.vregs@,
            allocated: self.allocated,
            stack: self.stack,
        }
    }
}

/// A free slot.
pub open spec fn blank() -> ThreadModel {
    ThreadModel {
        gpr: Seq::new(31, |i: int| 0u64),
        sp: 0,
        elr: 0,
        spsr: 0,
        tpidr: 0,
        fpcr: 0,
        fpsr: 0,
        pad: 0,
        vregs: Seq::new(64, |i: int| 0u64),
        allocated: false,
        stack: None,
    }
}

/// The register that argument `i` of a call is in.
pub open spec fn arg_reg(i: int) -> int {
    if i < 6 {
        i
    } else {
        i + 2
    }
}

impl ThreadModel {
    /// The arguments of a call.
    pub open spec fn args(self) -> Seq<u64> {
        Seq::new(8, |i: int| self.gpr[arg_reg(i)])
    }

    /// With the results of a call; registers beyond `args` stay as they are.
    pub open spec fn with_args(self, args: Seq<u64>) -> ThreadModel {
        ThreadModel {
            gpr: Seq::new(
                self.gpr.len(),
                |r: int|
                    if r < 6 && r < args.len() {
                        args[r]
                    } else if 8 <= r < 10 && r - 2 < args.len() {
                        args[r - 2]
                    } else {
                        self.gpr[r]
                    },
            ),
            ..self
        }
    }
}

/// Results that were set are read back as arguments, and no other register
/// changes.
pub proof fn law_args_round_trip(t: ThreadModel, args: Seq<u64>)
    requires
        t.gpr.len() == 31,
        args.len() == 8,
    ensures
        t.with_args(args).args() == args,
        forall|r: int|
            (6 <= r < 8 || 10 <= r < 31) ==> #[trigger] t.with_args(args).gpr[r] == t.gpr[r],
{
    assert(t.with_args(args).args() =~= args);
}

impl Default for Thread {
    fn default() -> (t: Thread)
        ensures
            t@ == blank(),
    {
        let t: Thread = Thread {
            gpr: [0u64; 31],
            sp: 0,
            elr: 0,
            spsr: 0,
            tpidr: 0,
            fpcr: 0,
            fpsr: 0,
            _pad: 0,
            vregs: [0u64; 64],
            allocated: false,
            stack: None,
        };
        assert(t@ =~= blank());
        t
    }
}

impl Thread {
    /// Sets where the thread goes on.
    pub fn set_pc(&mut self, pc: u64)
        ensures
            final(self)@ == (ThreadModel { elr: pc, ..old(self)@ }),
    {
        self.elr = pc;
    }

    /// Sets the stack pointer.
    pub fn set_sp(&mut self, sp: u64)
        ensures
            final(self)@ == (ThreadModel { sp: sp, ..old(self)@ }),
    {
        self.sp = sp;
    }

    /// The arguments of a call: the first six registers, and two more.
    pub fn get_args(&self) -> (r: [u64; 8])
        ensures
            r@ == self@.args(),
    {
        let r: [u64; 8] = [
            self.gpr[0],
            self.gpr[1],
            self.gpr[2],
            self.gpr[3],
            self.gpr[4],
            self.gpr[5],
            self.gpr[8],
            self.gpr[9],
        ];
        assert(r@ =~= self@.args());
        r
    }

    /// Sets the results of a call, as many as there are, up to eight.
    pub fn set_args(&mut self, args: &[u64])
        ensures
            final(self)@ == old(self)@.with_args(args@),
    {
        if args.len() > 0 {
            self.gpr[0] = args[0];
        }
        if args.len() > 1 {
            self.gpr[1] = args[1];
        }
        if args.len() > 2 {
            self.gpr[2] = args[2];
        }
        if args.len() > 3 {
            self.gpr[3] = args[3];
        }
        if args.len() > 4 {
            self.gpr[4] = args[4];
        }
        if args.len() > 5 {
            self.gpr[5] = args[5];
        }
        if args.len() > 6 {
            self.gpr[8] = args[6];
        }
        if args.len() > 7 {
            self.gpr[9] = args[7];
        }
        assert(self@ =~= old(self)@.with_args(args@));
    }

    /// The exception level and stack in the processor state.
    pub fn processor_mode(&self) -> (r: u32)
        ensures
            r == self.spsr % 16,
    {
        (self.spsr % 16) as u32
    }

    /// Masks all interrupts.
    pub fn disable_interrupts(&mut self)
        ensures
            final(self)@ == (ThreadModel { spsr: old(self)@.spsr | 0x3C0, ..old(self)@ }),
    {
        self.spsr = self.spsr | 0x3C0;
    }
}

/// The threads of a process.
pub struct ProcessImpl {
    pub threads: Vec<Thread>,
    pub current_thread: usize,
}

/// The threads of a process, as contracts see them.
#[verifier::ext_equal]
pub struct ProcModel {
    pub threads: Seq<ThreadModel>,
    pub current: int,
}

impl View for ProcessImpl {
    type V = ProcModel;

    open spec fn view(&self) -> ProcModel {
        ProcModel {
            threads: self.threads@.map_values(|t: Thread| t@),
            current: self.current_thread as int,
        }
    }
}

/// A process with every slot free.
pub open spec fn no_threads() -> ProcModel {
    ProcModel {
        threads: Seq::new(MAX_THREAD_COUNT as nat, |i: int| blank()),
        current: INITIAL_TID as int,
    }
}

impl ProcModel {
    /// With slot `i` replaced.
    pub open spec fn with_thread(self, i: int, t: ThreadModel) -> ProcModel {
        ProcModel { threads: self.threads.update(i, t), ..self }
    }
}

/// All processes, and which is current.
pub struct ProcessTable {
    pub procs: Vec<Option<ProcessImpl>>,
    pub current_pid: u8,
}

/// The model of a slot.
pub open spec fn slot_view(p: Option<ProcessImpl>) -> Option<ProcModel> {
    match p {
        Some(x) => Some(x@),
        None => None,
    }
}

impl View for ProcessTable {
    type V = Seq<Option<ProcModel>>;

    open spec fn view(&self) -> Seq<Option<ProcModel>> {
        self.procs@.map_values(|p: Option<ProcessImpl>| slot_view(p))
    }
}

/// A process has all of its slots, and its current thread is one of them.
pub open spec fn proc_wf(p: Option<ProcessImpl>) -> bool {
    p matches Some(x) ==> x.threads@.len() == MAX_THREAD_COUNT && 1 <= x.current_thread
        <= MAX_THREAD_COUNT
}

/// Bytes of the instruction that makes a call.
pub const SVC_SIZE: u64 = 4;

/// A number that a thread can have.
pub open spec fn valid_tid(tid: usize) -> bool {
    1 <= tid <= MAX_THREAD_COUNT
}

/// How a thread starts.
pub struct ThreadInit {
    pub call: u64,
    pub stack: Option<MemoryRange>,
    pub arg1: u64,
    pub arg2: u64,
    pub arg3: u64,
    pub arg4: u64,
}

/// The end of a stack, where it starts to grow down from.
pub open spec fn stack_top(s: Option<MemoryRange>) -> int {
    match s {
        Some(r) => r.addr + r.len,
        None => 0,
    }
}

/// A thread about to start.
pub open spec fn started(init: ThreadInit) -> ThreadModel {
    ThreadModel {
        gpr: blank().gpr.update(0, init.arg1).update(1, init.arg2).update(2, init.arg3).update(
            3,
            init.arg4,
        ),
        sp: stack_top(init.stack) as u64,
        elr: init.call,
        allocated: true,
        stack: init.stack,
        ..blank()
    }
}

/// How a process starts.
pub struct ProcessSetup {
    pub pid: u8,
    pub entry_point: u64,
    pub stack: MemoryRange,
    pub irq_stack: MemoryRange,
    pub aslr_slide: u64,
}

/// A process.
#[derive(Clone, Copy, PartialEq, Eq, Structural, Debug)]
pub struct Process {
    pub pid: u8,
}

/// A process with every slot free.
fn fresh_process() -> (r: ProcessImpl)
    ensures
        r@ == no_threads(),
        proc_wf(Some(r)),
{
    let mut threads: Vec<Thread> = Vec::new();
    let mut i: usize = 0;
    while i < MAX_THREAD_COUNT
        invariant
            i <= MAX_THREAD_COUNT,
            threads@.len() == i,
            forall|j: int| 0 <= j < i ==> (#[trigger] threads@[j])@ == blank(),
        decreases MAX_THREAD_COUNT - i,
    {
        threads.push(Thread::default());
        i = i + 1;
    }
    let r: ProcessImpl = ProcessImpl { threads, current_thread: INITIAL_TID };
    assert(r@ =~= no_threads());
    r
}

impl ProcessTable {
    /// Every process is well formed, and there is room for as many as can be.
    pub open spec fn wf(&self) -> bool {
        &&& self.procs@.len() == MAX_PROCESS_COUNT
        &&& forall|i: int| 0 <= i < MAX_PROCESS_COUNT ==> proc_wf(#[trigger] self.procs@[i])
    }

    /// A table without processes.
    pub fn new() -> (r: ProcessTable)
        ensures
            r.wf(),
            r@ == Seq::new(MAX_PROCESS_COUNT as nat, |i: int| None::<ProcModel>),
            r.current_pid == 1,
    {
        let mut procs: Vec<Option<ProcessImpl>> = Vec::new();
        let mut i: usize = 0;
        while i < MAX_PROCESS_COUNT
            invariant
                i <= MAX_PROCESS_COUNT,
                procs@.len() == i,
                forall|j: int| 0 <= j < i ==> (#[trigger] procs@[j]) is None,
            decreases MAX_PROCESS_COUNT - i,
        {
            procs.push(None);
            i = i + 1;
        }
        let r: ProcessTable = ProcessTable { procs, current_pid: 1 };
        assert(r@ =~= Seq::new(MAX_PROCESS_COUNT as nat, |i: int| None::<ProcModel>));
        r
    }

    /// The current process.
    pub fn current_pid(&self) -> (r: u8)
        ensures
            r == self.current_pid,
    {
        self.current_pid
    }

    /// Makes a process the current one.
    pub fn set_current_pid(&mut self, pid: u8)
        ensures
            final(self).current_pid == pid,
            final(self).procs == old(self).procs,
    {
        self.current_pid = pid;
    }

    /// Puts a process into a slot.
    fn put(&mut self, idx: usize, p: Option<ProcessImpl>)
        requires
            old(self).wf(),
            idx < MAX_PROCESS_COUNT,
            proc_wf(p),
        ensures
            final(self).wf(),
            final(self).current_pid == old(self).current_pid,
            final(self)@ == old(self)@.update(idx as int, slot_view(p)),
    {
        self.procs.set(idx, p);
        assert(self@ =~= old(self)@.update(idx as int, slot_view(p)));
    }

    /// Replaces a thread of a process that there is.
    fn put_thread(&mut self, idx: usize, slot: usize, t: Thread)
        requires
            old(self).wf(),
            idx < MAX_PROCESS_COUNT,
            slot < MAX_THREAD_COUNT,
            old(self).procs@[idx as int] is Some,
        ensures
            final(self).wf(),
            final(self).current_pid == old(self).current_pid,
            final(self)@ == old(self)@.update(
                idx as int,
                Some(old(self)@[idx as int]->0.with_thread(slot as int, t@)),
            ),
    {
        let mut p: Option<ProcessImpl> = None;
        std::mem::swap(&mut p, &mut self.procs[idx]);
        assert(proc_wf(old(self).procs@[idx as int]));
        if let Some(x) = p {
            let mut x: ProcessImpl = x;
            let ghost before = x@;
            x.threads.set(slot, t);
            assert(x@ =~= before.with_thread(slot as int, t@));
            self.procs.set(idx, Some(x));
            assert(self@ =~= old(self)@.update(
                idx as int,
                Some(old(self)@[idx as int]->0.with_thread(slot as int, t@)),
            ));
        }
    }
}

impl Process {
    /// The process can be in the table.
    pub open spec fn wf(self) -> bool {
        1 <= self.pid <= MAX_PROCESS_COUNT
    }

    /// Its slot.
    pub open spec fn slot(self) -> int {
        self.pid - 1
    }

    /// The current process.
    pub fn current(table: &ProcessTable) -> (r: Process)
        ensures
            r.pid == table.current_pid,
    {
        Process { pid: table.current_pid() }
    }

    /// Its current thread; the first one where there is no such process.
    pub fn current_tid(&self, table: &ProcessTable) -> (r: usize)
        requires
            table.wf(),
            self.pid >= 1,
        ensures
            r == (if self.wf() && table@[self.slot()] is Some {
                table@[self.slot()]->0.current
            } else {
                INITIAL_TID as int
            }),
    {
        let idx: usize = self.pid as usize - 1;
        if idx >= MAX_PROCESS_COUNT {
            return INITIAL_TID;
        }
        match &table.procs[idx] {
            Some(p) => p.current_thread,
            None => INITIAL_TID,
        }
    }

    /// Starts a thread in a free slot.
    pub fn setup_thread(&self, table: &mut ProcessTable, thread: usize, setup: ThreadInit) -> (r: Result<
        (),
        Error,
    >)
        requires
            old(table).wf(),
            self.wf(),
            stack_top(setup.stack) <= u64::MAX,
        ensures
            final(table).wf(),
            final(table).current_pid == old(table).current_pid,
            ({
                let p = old(table)@[self.slot()];
                if !valid_tid(thread) {
                    r == Err::<(), Error>(Error::ThreadNotAvailable) && final(table)@
                        == old(table)@
                } else if p is None {
                    r == Err::<(), Error>(Error::ProcessNotFound) && final(table)@ == old(table)@
                } else if p->0.threads[thread - 1].allocated {
                    r == Err::<(), Error>(Error::ThreadNotAvailable) && final(table)@
                        == old(table)@
                } else {
                    &&& r is Ok
                    &&& final(table)@ == old(table)@.update(
                        self.slot(),
                        Some(p->0.with_thread(thread - 1, started(setup))),
                    )
                }
            }),
    {
        if thread == 0 || thread > MAX_THREAD_COUNT {
            return Err(Error::ThreadNotAvailable);
        }
        let idx: usize = self.pid as usize - 1;
        assert(proc_wf(table.procs@[idx as int]));
        match &table.procs[idx] {
            None => {
                return Err(Error::ProcessNotFound);
            },
            Some(p) => {
                if p.threads[thread - 1].allocated {
                    return Err(Error::ThreadNotAvailable);
                }
            },
        }
        let mut t: Thread = Thread::default();
        t.allocated = true;
        t.set_pc(setup.call);
        let top: u64 = match setup.stack {
            Some(s) => s.addr + s.len,
            None => 0,
        };
        t.set_sp(top);
        t.gpr[0] = setup.arg1;
        t.gpr[1] = setup.arg2;
        t.gpr[2] = setup.arg3;
        t.gpr[3] = setup.arg4;
        t.spsr = 0;
        t.stack = setup.stack;
        assert(t@ =~= started(setup));
        table.put_thread(idx, thread - 1, t);
        Ok(())
    }

    /// Makes a thread the current one.
    pub fn set_tid(&self, table: &mut ProcessTable, thread: usize) -> (r: Result<(), Error>)
        requires
            old(table).wf(),
            self.wf(),
        ensures
            final(table).wf(),
            final(table).current_pid == old(table).current_pid,
            ({
                let p = old(table)@[self.slot()];
                if !valid_tid(thread) {
                    r == Err::<(), Error>(Error::ThreadNotAvailable) && final(table)@
                        == old(table)@
                } else if p is None {
                    r == Err::<(), Error>(Error::ProcessNotFound) && final(table)@ == old(table)@
                } else if !p->0.threads[thread - 1].allocated {
                    r == Err::<(), Error>(Error::ThreadNotAvailable) && final(table)@
                        == old(table)@
                } else {
                    &&& r is Ok
                    &&& final(table)@ == old(table)@.update(
                        self.slot(),
                        Some(ProcModel { current: thread as int, ..p->0 }),
                    )
                }
            }),
    {
        if thread == 0 || thread > MAX_THREAD_COUNT {
            return Err(Error::ThreadNotAvailable);
        }
        let idx: usize = self.pid as usize - 1;
        assert(proc_wf(table.procs@[idx as int]));
        match &table.procs[idx] {
            None => {
                return Err(Error::ProcessNotFound);
            },
            Some(p) => {
                if !p.threads[thread - 1].allocated {
                    return Err(Error::ThreadNotAvailable);
                }
            },
        }
        let mut p: Option<ProcessImpl> = None;
        std::mem::swap(&mut p, &mut table.procs[idx]);
        if let Some(x) = p {
            let mut x: ProcessImpl = x;
            x.current_thread = thread;
            table.procs.set(idx, Some(x));
            assert(table@ =~= old(table)@.update(
                self.slot(),
                Some(ProcModel { current: thread as int, ..old(table)@[self.slot()]->0 }),
            ));
        }
        Ok(())
    }

    /// The first free slot.
    pub fn find_free_thread(&self, table: &ProcessTable) -> (r: Option<usize>)
        requires
            table.wf(),
            self.wf(),
        ensures
            ({
                let p = table@[self.slot()];
                match r {
                    Some(tid) => {
                        &&& p is Some
                        &&& valid_tid(tid)
                        &&& !p->0.threads[tid - 1].allocated
                        &&& forall|i: int|
                            0 <= i < tid - 1 ==> (#[trigger] p->0.threads[i]).allocated
                    },
                    None => p is None || forall|i: int|
                        0 <= i < MAX_THREAD_COUNT ==> (#[trigger] p->0.threads[i]).allocated,
                }
            }),
    {
        let idx: usize = self.pid as usize - 1;
        assert(proc_wf(table.procs@[idx as int]));
        match &table.procs[idx] {
            None => None,
            Some(p) => {
                assert(table@[self.slot()] == Some(p@));
                let mut i: usize = 0;
                while i < MAX_THREAD_COUNT
                    invariant
                        i <= MAX_THREAD_COUNT,
                        table@[self.slot()] == Some(p@),
                        p.threads@.len() == MAX_THREAD_COUNT,
                        forall|j: int| 0 <= j < i ==> (#[trigger] p@.threads[j]).allocated,
                    decreases MAX_THREAD_COUNT - i,
                {
                    if !p.threads[i].allocated {
                        return Some(i + 1);
                    }
                    i = i + 1;
                }
                None
            },
        }
    }

    /// Whether a thread exists.
    pub fn thread_exists(&self, table: &ProcessTable, tid: usize) -> (r: bool)
        requires
            table.wf(),
            self.wf(),
        ensures
            r == (valid_tid(tid) && table@[self.slot()] is Some
                && table@[self.slot()]->0.threads[tid - 1].allocated),
    {
        if tid == 0 || tid > MAX_THREAD_COUNT {
            return false;
        }
        let idx: usize = self.pid as usize - 1;
        assert(proc_wf(table.procs@[idx as int]));
        match &table.procs[idx] {
            None => false,
            Some(p) => p.threads[tid - 1].allocated,
        }
    }

    /// Sets the result of a call for a thread; without such a thread nothing
    /// happens.
    pub fn set_thread_result(&self, table: &mut ProcessTable, tid: usize, args: &[u64])
        requires
            old(table).wf(),
            self.wf(),
        ensures
            final(table).wf(),
            final(table).current_pid == old(table).current_pid,
            final(table)@ == (if valid_tid(tid) && old(table)@[self.slot()] is Some {
                let p = old(table)@[self.slot()]->0;
                old(table)@.update(
                    self.slot(),
                    Some(p.with_thread(tid - 1, p.threads[tid - 1].with_args(args@))),
                )
            } else {
                old(table)@
            }),
    {
        if tid == 0 || tid > MAX_THREAD_COUNT {
            return;
        }
        let idx: usize = self.pid as usize - 1;
        assert(proc_wf(table.procs@[idx as int]));
        let mut t: Thread = match &table.procs[idx] {
            None => {
                return;
            },
            Some(p) => p.threads[tid - 1],
        };
        t.set_args(args);
        table.put_thread(idx, tid - 1, t);
    }

    /// Makes a thread make its call again: it goes back to the instruction that made the
    /// call, with the registers that it has. Without such a thread nothing happens.
    pub fn retry_swi_instruction(&self, table: &mut ProcessTable, tid: usize) -> (r: Result<
        (),
        Error,
    >)
        requires
            old(table).wf(),
            self.wf(),
        ensures
            r is Ok,
            final(table).wf(),
            final(table).current_pid == old(table).current_pid,
            final(table)@ == (if valid_tid(tid) && old(table)@[self.slot()] is Some {
                let p = old(table)@[self.slot()]->0;
                let t = p.threads[tid - 1];
                old(table)@.update(
                    self.slot(),
                    Some(
                        p.with_thread(
                            tid - 1,
                            ThreadModel { elr: t.elr.wrapping_sub(SVC_SIZE), ..t },
                        ),
                    ),
                )
            } else {
                old(table)@
            }),
    {
        if tid == 0 || tid > MAX_THREAD_COUNT {
            return Ok(());
        }
        let idx: usize = self.pid as usize - 1;
        assert(proc_wf(table.procs@[idx as int]));
        let mut t: Thread = match &table.procs[idx] {
            None => {
                return Ok(());
            },
            Some(p) => p.threads[tid - 1],
        };
        t.set_pc(t.elr.wrapping_sub(SVC_SIZE));
        table.put_thread(idx, tid - 1, t);
        Ok(())
    }

    /// Makes a process, with its first thread in use.
    pub fn create(table: &mut ProcessTable, pid: u8) -> (r: Result<Process, Error>)
        requires
            old(table).wf(),
            pid >= 1,
        ensures
            final(table).wf(),
            final(table).current_pid == old(table).current_pid,
            if pid > MAX_PROCESS_COUNT {
                r == Err::<Process, Error>(Error::OutOfMemory) && final(table)@ == old(table)@
            } else if old(table)@[pid - 1] is Some {
                r == Err::<Process, Error>(Error::ProcessNotFound) && final(table)@ == old(table)@
            } else {
                &&& r == Ok::<Process, Error>(Process { pid })
                &&& final(table)@ == old(table)@.update(
                    pid - 1,
                    Some(
                        no_threads().with_thread(
                            INITIAL_TID - 1,
                            ThreadModel { allocated: true, ..blank() },
                        ),
                    ),
                )
            },
    {
        let idx: usize = pid as usize - 1;
        if idx >= MAX_PROCESS_COUNT {
            return Err(Error::OutOfMemory);
        }
        if table.procs[idx].is_some() {
            return Err(Error::ProcessNotFound);
        }
        let mut p: ProcessImpl = fresh_process();
        let mut t: Thread = Thread::default();
        t.allocated = true;
        p.threads.set(INITIAL_TID - 1, t);
        assert(p@ =~= no_threads().with_thread(
            INITIAL_TID - 1,
            ThreadModel { allocated: true, ..blank() },
        ));
        table.put(idx, Some(p));
        Ok(Process { pid })
    }

    /// Removes a process.
    pub fn destroy(table: &mut ProcessTable, pid: u8) -> (r: Result<(), Error>)
        requires
            old(table).wf(),
            1 <= pid <= MAX_PROCESS_COUNT,
        ensures
            r is Ok,
            final(table).wf(),
            final(table).current_pid == old(table).current_pid,
            final(table)@ == old(table)@.update(pid - 1, None),
    {
        table.put(pid as usize - 1, None);
        Ok(())
    }

    /// Sets the first thread of a process up, and the process where there is
    /// none.
    pub fn setup_process(table: &mut ProcessTable, setup: ProcessSetup) -> (r: Result<(), Error>)
        requires
            old(table).wf(),
            setup.pid >= 1,
            setup.stack.addr + setup.stack.len <= u64::MAX,
        ensures
            final(table).wf(),
            final(table).current_pid == old(table).current_pid,
            if setup.pid > MAX_PROCESS_COUNT {
                r == Err::<(), Error>(Error::OutOfMemory) && final(table)@ == old(table)@
            } else {
                let p = match old(table)@[setup.pid - 1] {
                    Some(p) => p,
                    None => no_threads(),
                };
                &&& r is Ok
                &&& final(table)@ == old(table)@.update(
                    setup.pid - 1,
                    Some(
                        p.with_thread(
                            INITIAL_TID - 1,
                            ThreadModel {
                                allocated: true,
                                elr: setup.entry_point,
                                sp: (setup.stack.addr + setup.stack.len) as u64,
                                spsr: 0,
                                stack: Some(setup.stack),
                                ..p.threads[INITIAL_TID - 1]
                            },
                        ),
                    ),
                )
            },
    {
        let idx: usize = setup.pid as usize - 1;
        if idx >= MAX_PROCESS_COUNT {
            return Err(Error::OutOfMemory);
        }
        assert(proc_wf(table.procs@[idx as int]));
        if table.procs[idx].is_none() {
            let p: ProcessImpl = fresh_process();
            table.put(idx, Some(p));
        }
        let ghost mid = table@;
        assert(proc_wf(table.procs@[idx as int]));
        let mut t: Thread = match &table.procs[idx] {
            None => {
                return Ok(());
            },
            Some(p) => p.threads[INITIAL_TID - 1],
        };
        t.allocated = true;
        t.set_pc(setup.entry_point);
        t.set_sp(setup.stack.addr + setup.stack.len);
        t.spsr = 0;
        t.stack = Some(setup.stack);
        table.put_thread(idx, INITIAL_TID - 1, t);
        proof {
            let p = mid[idx as int]->0;
            assert(t@ =~= (ThreadModel {
                allocated: true,
                elr: setup.entry_point,
                sp: (setup.stack.addr + setup.stack.len) as u64,
                spsr: 0,
                stack: Some(setup.stack),
                ..p.threads[INITIAL_TID - 1]
            }));
            assert(table@ =~= old(table)@.update(
                idx as int,
                Some(p.with_thread(INITIAL_TID - 1, t@)),
            ));
        }
        Ok(())
    }

    /// Sends the interrupt thread to a handler.
    pub fn run_irq_handler(&self, table: &mut ProcessTable, pc: u64, irq_no: u64, arg: u64)
        requires
            old(table).wf(),
            self.wf(),
        ensures
            final(table).wf(),
            final(table).current_pid == old(table).current_pid,
            final(table)@ == (match old(table)@[self.slot()] {
                Some(p) => old(table)@.update(
                    self.slot(),
                    Some(
                        p.with_thread(
                            IRQ_TID - 1,
                            ThreadModel {
                                elr: pc,
                                gpr: p.threads[IRQ_TID - 1].gpr.update(0, irq_no).update(1, arg),
                                spsr: 0,
                                ..p.threads[IRQ_TID - 1]
                            },
                        ),
                    ),
                ),
                None => old(table)@,
            }),
    {
        let idx: usize = self.pid as usize - 1;
        assert(proc_wf(table.procs@[idx as int]));
        let mut t: Thread = match &table.procs[idx] {
            None => {
                return;
            },
            Some(p) => p.threads[IRQ_TID - 1],
        };
        let ghost before = t@;
        t.set_pc(pc);
        t.gpr[0] = irq_no;
        t.gpr[1] = arg;
        t.spsr = 0;
        assert(t@ =~= (ThreadModel {
            elr: pc,
            gpr: before.gpr.update(0, irq_no).update(1, arg),
            spsr: 0,
            ..before
        }));
        table.put_thread(idx, IRQ_TID - 1, t);
    }

    /// Removes a thread: the value that it ended with, and its stack.
    pub fn destroy_thread(&self, table: &mut ProcessTable, tid: usize) -> (r: Option<
        (u64, Option<MemoryRange>),
    >)
        requires
            old(table).wf(),
            self.wf(),
        ensures
            final(table).wf(),
            final(table).current_pid == old(table).current_pid,
            ({
                let p = old(table)@[self.slot()];
                if valid_tid(tid) && p is Some && p->0.threads[tid - 1].allocated {
                    &&& r == Some((p->0.threads[tid - 1].gpr[0], p->0.threads[tid - 1].stack))
                    &&& final(table)@ == old(table)@.update(
                        self.slot(),
                        Some(p->0.with_thread(tid - 1, blank())),
                    )
                } else {
                    r is None && final(table)@ == old(table)@
                }
            }),
    {
        if tid == 0 || tid > MAX_THREAD_COUNT {
            return None;
        }
        let idx: usize = self.pid as usize - 1;
        assert(proc_wf(table.procs@[idx as int]));
        let t: Thread = match &table.procs[idx] {
            None => {
                return None;
            },
            Some(p) => p.threads[tid - 1],
        };
        if !t.allocated {
            return None;
        }
        table.put_thread(idx, tid - 1, Thread::default());
        Some((t.gpr[0], t.stack))
    }

    /// The registers of a thread; a number out of range stands for the nearest.
    pub fn thread<'a>(&self, table: &'a ProcessTable, tid: usize) -> (r: &'a Thread)
        requires
            table.wf(),
            self.wf(),
            table@[self.slot()] is Some,
        ensures
            r@ == table@[self.slot()]->0.threads[if tid == 0 {
                0
            } else if tid > MAX_THREAD_COUNT {
                MAX_THREAD_COUNT - 1
            } else {
                tid - 1
            }],
    {
        let idx: usize = self.pid as usize - 1;
        assert(proc_wf(table.procs@[idx as int]));
        let slot: usize = if tid == 0 {
            0
        } else if tid > MAX_THREAD_COUNT {
            MAX_THREAD_COUNT - 1
        } else {
            tid - 1
        };
        let p: &ProcessImpl = table.procs[idx].as_ref().unwrap();
        &p.threads[slot]
    }

    /// Removes the current process.
    pub fn crash_current_process(table: &mut ProcessTable)
        requires
            old(table).wf(),
            1 <= old(table).current_pid <= MAX_PROCESS_COUNT,
        ensures
            final(table).wf(),
            final(table).current_pid == old(table).current_pid,
            final(table)@ == old(table)@.update(old(table).current_pid - 1, None),
    {
        let idx: usize = table.current_pid as usize - 1;
        table.put(idx, None);
    }
}

/// A thread that is started in a free slot has its stack, to be given back when it is
/// removed; that then leaves the process as it was before.
pub proof fn law_thread_comes_and_goes(p: ProcModel, tid: usize, init: ThreadInit)
    requires
        p.threads.len() == MAX_THREAD_COUNT,
        valid_tid(tid),
        p.threads[tid - 1] == blank(),
    ensures
        p.with_thread(tid - 1, started(init)).threads[tid - 1].allocated,
        p.with_thread(tid - 1, started(init)).threads[tid - 1].stack == init.stack,
        p.with_thread(tid - 1, started(init)).with_thread(tid - 1, blank()) == p,
{
    assert(p.with_thread(tid - 1, started(init)).with_thread(tid - 1, blank()) =~= p);
}

/// A thread starts at its entry, with its four arguments in the first four registers, its
/// stack pointer at the end of its stack, and every other register clear.
pub proof fn law_thread_starts(init: ThreadInit, r: int)
    requires
        init.stack matches Some(s) ==> s.addr + s.len <= u64::MAX,
        0 <= r < 31,
    ensures
        ({
            let t = started(init);
            &&& t.elr == init.call
            &&& t.gpr[0] == init.arg1
            &&& t.gpr[1] == init.arg2
            &&& t.gpr[2] == init.arg3
            &&& t.gpr[3] == init.arg4
            &&& r >= 4 ==> t.gpr[r] == 0
            &&& t.sp == (match init.stack {
                Some(s) => s.addr + s.len,
                None => 0,
            })
            &&& t.spsr == 0
            &&& t.allocated
        }),
{
}

/// The eight words of a call are in the registers 0 to 5, 8 and 9.
pub proof fn law_call_registers(t: ThreadModel, i: int)
    requires
        0 <= i < 6,
    ensures
        t.args()[i] == t.gpr[i],
        t.args()[6] == t.gpr[8],
        t.args()[7] == t.gpr[9],
        t.args().len() == 8,
{
}

/// What is done to a process leaves the others alone.
pub proof fn law_processes_are_apart(
    table: Seq<Option<ProcModel>>,
    a: Process,
    b: Process,
    after: Option<ProcModel>,
)
    requires
        table.len() == MAX_PROCESS_COUNT,
        a.wf(),
        b.wf(),
        a != b,
    ensures
        table.update(a.slot(), after)[b.slot()] == table[b.slot()],
{
}

} // verus!
