use beetos_kernel::arch::aarch64::backtrace::Backtrace;
use beetos_kernel::arch::aarch64::irq::{
    abort_name, classify, deliver_char_to_sid, dispatch_input_char, handle_irq,
    handle_irq_bcm2712, kernel_resume_spsr, must_idle, note_delivery, notified,
    unknown_irq_report, Delivery,
    DeviceIrqs, Dispatch, Exception, IrqPlan, IrqWork, PreemptLog, ScalarMessage, ServerEntry,
};
use beetos_kernel::arch::aarch64::process::{
    MemoryRange, Process, ProcessSetup, ProcessTable, Thread, ThreadInit, INITIAL_TID,
};
use beetos_kernel::arch::aarch64::rand as arch_rand;
use beetos_kernel::arch::aarch64::syscall::{answer, invoke};
use beetos_kernel::error::Error;
use beetos_kernel::font::{draw_char, render, Style, CHAR_H, CHAR_W};
use beetos_kernel::kfuture::{
    KernelFuture, PollResult, PollStart, WakeSenders, EVENT_SERVER_MSG,
};
use beetos_kernel::platform::apple_t8103;
use beetos_kernel::platform::qemu_virt::rng::Rng;
use beetos_kernel::platform::rand as platform_rand;
use beetos_kernel::ring::ByteRing;

fn table() -> ProcessTable {
    let mut t = ProcessTable::new();
    Process::create(&mut t, 5).unwrap();
    t
}

fn init(stack: Option<MemoryRange>) -> ThreadInit {
    ThreadInit { call: 0x1000, stack, arg1: 1, arg2: 2, arg3: 3, arg4: 4 }
}

#[test]
fn process_is_created_once() {
    let mut t = table();
    let p = Process { pid: 5 };
    assert_eq!(Process::create(&mut t, 5), Err(Error::ProcessNotFound));
    assert_eq!(Process::create(&mut t, 65), Err(Error::OutOfMemory));
    assert_eq!(p.current_tid(&t), INITIAL_TID);
    assert!(p.thread_exists(&t, INITIAL_TID));
    assert!(!p.thread_exists(&t, 1));
    Process::destroy(&mut t, 5).unwrap();
    assert!(!p.thread_exists(&t, INITIAL_TID));
}

#[test]
fn thread_comes_and_goes() {
    let mut t = table();
    let p = Process { pid: 5 };
    assert_eq!(p.find_free_thread(&t), Some(1));
    let stack = Some(MemoryRange { addr: 0x8000, len: 0x1000 });
    p.setup_thread(&mut t, 3, init(stack)).unwrap();
    assert_eq!(p.setup_thread(&mut t, 3, init(stack)), Err(Error::ThreadNotAvailable));
    assert_eq!(p.setup_thread(&mut t, 0, init(stack)), Err(Error::ThreadNotAvailable));
    assert_eq!(p.setup_thread(&mut t, 33, init(stack)), Err(Error::ThreadNotAvailable));
    let other = Process { pid: 6 };
    assert_eq!(other.setup_thread(&mut t, 3, init(stack)), Err(Error::ProcessNotFound));
    let th = p.thread(&t, 3);
    assert_eq!((th.elr, th.sp, th.gpr[0], th.gpr[3]), (0x1000, 0x9000, 1, 4));
    p.set_tid(&mut t, 3).unwrap();
    assert_eq!(p.current_tid(&t), 3);
    assert_eq!(p.set_tid(&mut t, 9), Err(Error::ThreadNotAvailable));
    assert_eq!(p.destroy_thread(&mut t, 3), Some((1, stack)));
    assert_eq!(p.destroy_thread(&mut t, 3), None);
}

#[test]
fn call_results_reach_the_registers() {
    let mut t = table();
    let p = Process { pid: 5 };
    p.set_thread_result(&mut t, INITIAL_TID, &[9, 8, 7, 6, 5, 4, 3, 2]);
    let th = p.thread(&t, INITIAL_TID);
    assert_eq!(th.get_args(), [9, 8, 7, 6, 5, 4, 3, 2]);
    assert_eq!((th.gpr[6], th.gpr[7], th.gpr[8], th.gpr[9]), (0, 0, 3, 2));
}

#[test]
fn retried_call_is_made_again() {
    let mut t = table();
    let p = Process { pid: 5 };
    p.setup_thread(&mut t, 3, init(None)).unwrap();
    p.retry_swi_instruction(&mut t, 3).unwrap();
    let th = p.thread(&t, 3);
    assert_eq!(th.elr, 0x1000 - 4);
    assert_eq!(th.get_args(), [1, 2, 3, 4, 0, 0, 0, 0]);
    p.retry_swi_instruction(&mut t, 33).unwrap();
    Process { pid: 6 }.retry_swi_instruction(&mut t, 3).unwrap();
    assert_eq!(p.thread(&t, 3).elr, 0x1000 - 4);
}

#[test]
fn process_is_set_up() {
    let mut t = ProcessTable::new();
    let stack = MemoryRange { addr: 0x10_0000, len: 0x4000 };
    let setup = |pid| ProcessSetup {
        pid,
        entry_point: 0x40_0000,
        stack,
        irq_stack: stack,
        aslr_slide: 0,
    };
    Process::setup_process(&mut t, setup(2)).unwrap();
    let th = Process { pid: 2 }.thread(&t, INITIAL_TID);
    assert_eq!((th.elr, th.sp, th.allocated), (0x40_0000, 0x10_4000, true));
    assert_eq!(th.stack, Some(stack));
    assert_eq!(Process::setup_process(&mut t, setup(70)), Err(Error::OutOfMemory));
    Process { pid: 2 }.run_irq_handler(&mut t, 0x5000, 33, 8);
    let th = Process { pid: 2 }.thread(&t, 1);
    assert_eq!((th.elr, th.gpr[0], th.gpr[1]), (0x5000, 33, 8));
    t.set_current_pid(2);
    assert_eq!(Process::current(&t).pid, 2);
    Process::crash_current_process(&mut t);
    assert!(!Process { pid: 2 }.thread_exists(&t, INITIAL_TID));
    assert_eq!(t.current_pid(), 2);
}

#[test]
fn thread_registers() {
    let mut th = Thread::default();
    th.spsr = 0x5;
    assert_eq!(th.processor_mode(), 5);
    th.disable_interrupts();
    assert_eq!(th.spsr, 0x3C5);
    invoke(&mut th, true, 0x10, 0x20, 0x30, &[1, 2]);
    assert_eq!((th.elr, th.sp, th.gpr[30], th.spsr), (0x10, 0x20, 0x30, 0x3C5));
    assert_eq!((th.gpr[0], th.gpr[1]), (1, 2));
    invoke(&mut th, false, 0x10, 0x20, 0x30, &[]);
    assert_eq!(th.spsr, 0);
}

#[test]
fn exceptions_are_told_apart() {
    assert_eq!(classify(0x15 << 26 | 0x7), Exception::Svc { iss: 7 });
    assert_eq!(classify(0x20 << 26 | 0x45), Exception::InstructionAbort { dfsc: 5 });
    assert_eq!(classify(0x21 << 26), Exception::InstructionAbort { dfsc: 0 });
    assert_eq!(classify(0x24 << 26 | 0x47), Exception::DataAbort { dfsc: 7 });
    assert_eq!(classify(0x25 << 26), Exception::DataAbort { dfsc: 0 });
    assert_eq!(classify(0x3C << 26), Exception::Unknown);
    assert_eq!(abort_name(Exception::DataAbort { dfsc: 7 }), Some("DABT"));
    assert_eq!(abort_name(Exception::InstructionAbort { dfsc: 7 }), Some("IABT"));
    assert_eq!(abort_name(Exception::Unknown), None);
    assert_eq!(kernel_resume_spsr(0x3C5), 0x345);
}

#[test]
fn interrupts_are_dispatched() {
    let lines = DeviceIrqs { blk: Some(48), net: Some(49), input: Some(33) };
    let plan = |irq| handle_irq(irq, &lines);
    assert_eq!(plan(1023), IrqPlan { work: IrqWork::Spurious, eoi: None, is_timer: false });
    assert_eq!(plan(30), IrqPlan { work: IrqWork::Tick, eoi: Some(30), is_timer: true });
    assert_eq!(plan(33).work, IrqWork::Uart);
    assert_eq!(plan(48).work, IrqWork::Blk);
    assert_eq!(plan(49).work, IrqWork::Net);
    assert_eq!(plan(50), IrqPlan { work: IrqWork::Unknown, eoi: Some(50), is_timer: false });
    let lines = DeviceIrqs { blk: None, net: None, input: Some(58) };
    assert_eq!(handle_irq(58, &lines).work, IrqWork::Input);
    assert_eq!(handle_irq_bcm2712(30).work, IrqWork::Tick);
    assert_eq!(handle_irq_bcm2712(33).work, IrqWork::Unknown);
    assert_eq!(unknown_irq_report(127), b"IRQ 127\n".to_vec());
}

#[test]
fn characters_are_delivered() {
    let sid = [1, 2, 3, 4];
    let message = ScalarMessage { id: 3, arg1: 65, arg2: 0, arg3: 0, arg4: 0 };
    let waiting = || Some(ServerEntry { sid, pid: 9, available: vec![2, 5] });
    let busy = || Some(ServerEntry { sid, pid: 9, available: vec![] });
    let other = || Some(ServerEntry { sid: [0; 4], pid: 8, available: vec![7] });
    assert_eq!(
        deliver_char_to_sid(&[None, other(), waiting()], sid, 65, 3),
        Delivery::Handed { sidx: 2, pid: 9, tid: 2, sender: 0, message }
    );
    assert_eq!(
        deliver_char_to_sid(&[busy()], sid, 65, 3),
        Delivery::Queued { sidx: 0, pid: 9, from_pid: 1, from_tid: 1, message, notify: 1 }
    );
    assert_eq!(deliver_char_to_sid(&[other()], sid, 65, 3), Delivery::Dropped);
    assert_eq!(dispatch_input_char(None, &[waiting()], 65, 3), Dispatch::Buffered(65));
    assert_eq!(
        dispatch_input_char(Some(sid), &[], 65, 3),
        Dispatch::Delivered(Delivery::Dropped)
    );
    let mut servers = vec![other(), waiting()];
    for tid in [2, 5] {
        let d = deliver_char_to_sid(&servers, sid, 65, 3);
        assert_eq!(d, Delivery::Handed { sidx: 1, pid: 9, tid, sender: 0, message });
        note_delivery(&mut servers, d);
    }
    let d = deliver_char_to_sid(&servers, sid, 65, 3);
    assert!(matches!(d, Delivery::Queued { sidx: 1, pid: 9, .. }));
    note_delivery(&mut servers, d);
    assert_eq!(servers[0].as_ref().unwrap().available, vec![7]);
    assert_eq!(servers[1].as_ref().unwrap().available, vec![]);
    assert_eq!(notified(9, Some((4, 1))), Some((9, 4, 1)));
    assert_eq!(notified(9, None), None);
}

#[test]
fn first_preemption_is_reported() {
    let mut log = PreemptLog::new();
    assert!(!log.note(true, 3, 3));
    assert!(!log.note(false, 3, 4));
    assert!(log.note(true, 3, 4));
    assert!(!log.note(true, 4, 5));
    assert!(must_idle(1));
    assert!(!must_idle(2));
}

#[test]
fn random_numbers_of_the_generator() {
    let mut rng = arch_rand::unseeded();
    arch_rand::init(&mut rng, [1, 2, 3, 4, 5, 6, 7, 8], 0);
    let mut seed: u64 = 0xDEAD_BEEF_CAFE_BABE;
    for c in 1..=8u64 {
        seed = seed.rotate_left(7) ^ c.wrapping_mul(0x9E37_79B9_7F4A_7C15);
    }
    assert_eq!(rng.state, seed);
    assert!(!rng.has_rndr);
    let mut s = seed ^ 99u64.wrapping_mul(0x2545_F491_4F6C_DD1D);
    s ^= s << 13;
    s ^= s >> 7;
    s ^= s << 17;
    assert_eq!(arch_rand::get_u32(&mut rng, Some(5), 99), s as u32);
    assert_eq!(rng.state, s);
    arch_rand::init(&mut rng, [0; 8], 1 << 60);
    assert!(rng.has_rndr);
    assert_eq!(arch_rand::get_u32(&mut rng, Some(0x1_2345_6789), 0), 0x2345_6789);
}

#[test]
fn random_numbers_of_the_platform() {
    let mut fallback = arch_rand::unseeded();
    let mut device = Rng { dev: None, pool: vec![7; 64], pool_len: 4 };
    assert_eq!(platform_rand::get_u32(&mut device, &mut fallback, None, 1), 0x0707_0707);
    assert_eq!(device.pool_len, 0);
    assert_eq!(&device.pool[..6], &[0, 0, 0, 0, 7, 7]);
    let before = fallback.state;
    platform_rand::get_u32(&mut device, &mut fallback, None, 1);
    assert_ne!(fallback.state, before);
    let mut seed = apple_t8103::rand::SEED;
    let mut x: u32 = 0xDEAD_BEEF;
    for _ in 0..3 {
        x ^= x << 13;
        x ^= x >> 17;
        x ^= x << 5;
        assert_eq!(apple_t8103::rand::get_u32(&mut seed), x);
    }
}

#[test]
fn backtrace_follows_the_frames() {
    let mut b = Backtrace::new(0x1000);
    assert!(b.has_frame());
    assert!(b.no_frames());
    assert_eq!(b.step(0x2000, 0xAAAA), Some((0, 0xAAAA)));
    assert_eq!(b.step(0x3000, 0xBBBB), Some((1, 0xBBBB)));
    assert_eq!(b.step(0x2000, 0xCCCC), Some((2, 0xCCCC)));
    assert!(!b.has_frame());
    assert!(!b.no_frames());
    let mut b = Backtrace::new(0x1000);
    assert_eq!(b.step(0x2000, 0), None);
    assert!(!b.has_frame());
    assert!(!Backtrace::new(0x1001).has_frame());
    let mut b = Backtrace::new(8);
    let mut n = 0;
    while b.has_frame() {
        b.step(b.fp + 8, 1);
        n += 1;
    }
    assert_eq!(n, 32);
}

#[test]
fn waiting_call_is_polled() {
    let f = KernelFuture::ReceiveMessage { sidx: 4 };
    assert_eq!(EVENT_SERVER_MSG, 1);
    assert_eq!(f.poll(Some(7), 7), PollStart::Take { sidx: 4 });
    assert_eq!(f.poll(Some(8), 7), PollStart::Failed(Error::ServerNotFound));
    assert_eq!(f.poll(None, 7), PollStart::Failed(Error::ServerNotFound));
    let (r, wake) = f.taken(true, Some("m"), false);
    assert!(matches!(r, PollResult::Ready(Ok("m"))));
    assert_eq!(wake, Some(WakeSenders { sidx: 4, limit: usize::MAX }));
    assert_eq!(f.taken(true, Some("m"), true).1, None);
    let (r, wake) = f.taken::<u8>(true, None, false);
    assert!(matches!(r, PollResult::Pending));
    assert_eq!(wake, None);
}

#[test]
fn characters_are_drawn() {
    let (w, h) = (20, 20);
    let mut fb = vec![9u32; w * h];
    draw_char(&mut fb, w, 3, 2, b'A', 1, 0, 1);
    let glyph = font8x8::legacy::BASIC_LEGACY[b'A' as usize];
    assert_ne!(glyph, [0u8; 8]);
    for y in 0..h {
        for x in 0..w {
            let inside = x >= 3 && x < 3 + CHAR_W && y >= 2 && y < 2 + CHAR_H;
            let expected = if !inside {
                9
            } else if (glyph[(y - 2) / 2] >> (7 - (x - 3))) & 1 != 0 {
                1
            } else {
                0
            };
            assert_eq!(fb[y * w + x], expected);
        }
    }
}

#[test]
fn cell_goes_on_in_the_next_rows() {
    let mut fb = vec![9u32; 15 * 10 + 6 + 8];
    draw_char(&mut fb, 10, 6, 0, b' ', 1, 0, 1);
    for (i, p) in fb.iter().enumerate() {
        let inside = i >= 6 && (i - 6) % 10 < 8;
        assert_eq!(*p, if inside { 0 } else { 9 });
    }
    // Narrower rows overlap: the dots that are drawn later stay.
    let glyph = [0x80, 0, 0, 0, 0, 0, 0, 0x01];
    let mut fb = vec![9u32; 15 * 4 + 8];
    render(&mut fb, 4, 0, 0, &glyph, Style { fg: 1, bg: 0, scale: 1 });
    assert_eq!(fb[0..6], [1, 0, 0, 0, 0, 0]);
    assert_eq!(fb[60..68], [0, 0, 0, 1, 0, 0, 0, 1]);
    let mut fb = vec![9u32; 9];
    render(&mut fb, 0, 0, 7, &glyph, Style { fg: 1, bg: 0, scale: 1 });
    assert_eq!(fb, vec![0, 0, 0, 0, 0, 0, 0, 1, 9]);
    let mut none: Vec<u32> = vec![];
    draw_char(&mut none, 0, 5, 5, b'A', 1, 0, 0);
    assert!(none.is_empty());
}

#[test]
fn other_characters_are_drawn_as_spaces() {
    let mut a = vec![9u32; 16 * 32];
    let mut b = a.clone();
    draw_char(&mut a, 16, 0, 0, 0xE4, 1, 0, 2);
    draw_char(&mut b, 16, 0, 0, b' ', 1, 0, 2);
    assert_eq!(a, b);
    assert!(a.iter().all(|&p| p == 0));
}

#[test]
fn glyphs_are_scaled() {
    let mut fb = vec![0u32; 16 * 32];
    let style = Style { fg: 5, bg: 6, scale: 2 };
    render(&mut fb, 16, 0, 0, &[0x80, 0, 0, 0, 0, 0, 0, 1], style);
    assert_eq!(&fb[0..4], &[5, 5, 6, 6]);
    assert_eq!(fb[3 * 16], 5);
    assert_eq!(fb[4 * 16], 6);
    assert_eq!(fb[32 * 16 - 1], 5);
}

#[test]
fn ring_is_first_in_first_out() {
    let mut r = ByteRing::new(4);
    assert_eq!(r.push_fitting(b"abcd"), 3);
    assert_eq!(r.free(), 0);
    assert_eq!(r.drain(2), b"ab".to_vec());
    assert_eq!(r.push_fitting(b"xy"), 2);
    assert_eq!(r.drain(9), b"cxy".to_vec());
    assert!(r.is_empty());
    r.push_overwriting(b"12345");
    assert_eq!(r.drain(9), b"345".to_vec());
}

#[test]
fn call_is_answered_unless_the_caller_resumes() {
    let mut t = table();
    let p = Process { pid: 5 };
    answer(&mut t, &p, INITIAL_TID, Some(&[4, 3, 2]));
    assert_eq!(p.thread(&t, INITIAL_TID).get_args(), [4, 3, 2, 0, 0, 0, 0, 0]);
    answer(&mut t, &p, INITIAL_TID, None);
    assert_eq!(p.thread(&t, INITIAL_TID).get_args(), [4, 3, 2, 0, 0, 0, 0, 0]);
    answer(&mut t, &Process { pid: 6 }, INITIAL_TID, Some(&[1]));
    assert_eq!(p.thread(&t, INITIAL_TID).get_args(), [4, 3, 2, 0, 0, 0, 0, 0]);
}
