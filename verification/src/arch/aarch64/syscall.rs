//! Calls that the kernel makes on behalf of a thread.
use crate::arch::aarch64::process::{self, Process, ProcessTable, Thread, ThreadModel};
use vstd::prelude::*;

verus! {

/// Kernel mode, with interrupts masked.
pub const SPSR_KERNEL: u64 = 0x3C5;

/// User mode, with interrupts enabled.
pub const SPSR_USER: u64 = 0;

/// A thread about to enter a function at `pc` that returns to `ret_addr`.
pub open spec fn invoked(
    t: ThreadModel,
    supervisor: bool,
    pc: u64,
    sp: u64,
    ret_addr: u64,
    args: Seq<u64>,
) -> ThreadModel {
    let called = ThreadModel { gpr: t.gpr.update(30, ret_addr), ..t }.with_args(args);
    ThreadModel {
        elr: pc,
        sp: sp,
        spsr: if supervisor {
            SPSR_KERNEL
        } else {
            SPSR_USER
        },
        ..called
    }
}

/// Sets a thread up to enter a function.
pub fn invoke(
    context: &mut Thread,
    supervisor: bool,
    pc: u64,
    sp: u64,
    ret_addr: u64,
    args: &[u64],
)
    ensures
        final(context)@ == invoked(old(context)@, supervisor, pc, sp, ret_addr, args@),
{
    context.set_pc(pc);
    context.set_sp(sp);
    context.gpr[30] = ret_addr;
    context.set_args(args);
    if supervisor {
        context.spsr = SPSR_KERNEL;
    } else {
        context.spsr = SPSR_USER;
    }
    assert(context@ =~= invoked(old(context)@, supervisor, pc, sp, ret_addr, args@));
}

/// Writes the answer to a call into the registers of the thread that made it. Without
/// an answer the thread, or another one, goes on with the registers that it has.
pub fn answer(table: &mut ProcessTable, caller: &Process, tid: usize, response: Option<&[u64]>)
    requires
        old(table).wf(),
        caller.wf(),
    ensures
        final(table).wf(),
        final(table).current_pid == old(table).current_pid,
        final(table)@ == (match response {
            Some(args) if process::valid_tid(tid) && old(table)@[caller.slot()] is Some => {
                let p = old(table)@[caller.slot()]->0;
                old(table)@.update(
                    caller.slot(),
                    Some(p.with_thread(tid - 1, p.threads[tid - 1].with_args(args@))),
                )
            },
            _ => old(table)@,
        }),
{
    if let Some(args) = response {
        caller.set_thread_result(table, tid, args);
    }
}

/// A thread that is sent into a function goes on at its first instruction, on the given stack,
/// with the first six arguments in registers 0 to 5, two more in 8 and 9, and the place to
/// return to in register 30; all other registers are as they were. Kernel mode is 5 in the low bits of the saved
/// status, with all four kinds of interrupts masked; user mode is 0, with none.
pub proof fn law_function_is_entered(
    t: ThreadModel,
    supervisor: bool,
    pc: u64,
    sp: u64,
    ret_addr: u64,
    args: Seq<u64>,
    k: int,
)
    requires
        t.gpr.len() == 31,
        args.len() <= 8,
        0 <= k < 31,
    ensures
        ({
            let n = invoked(t, supervisor, pc, sp, ret_addr, args);
            &&& n.elr == pc
            &&& n.sp == sp
            &&& n.gpr[30] == ret_addr
            &&& k < 6 && k < args.len() ==> n.gpr[k] == args[k]
            &&& args.len() > 6 ==> n.gpr[8] == args[6]
            &&& args.len() > 7 ==> n.gpr[9] == args[7]
            &&& args.len() <= k < 30 && k != 8 && k != 9 ==> n.gpr[k] == t.gpr[k]
            &&& k == 6 || k == 7 ==> n.gpr[k] == t.gpr[k]
            &&& supervisor ==> n.spsr as int % 16 == 5 && n.spsr as int / 64 == 15
            &&& !supervisor ==> n.spsr == 0
        }),
{
}

} // verus!
