use std::cell::RefCell;
use std::collections::BTreeMap;
use std::rc::Rc;

use beetos_kernel::mmio::{Mmio, Trace};
use beetos_kernel::platform::gic::Gic;
use beetos_kernel::platform::qemu_virt::blk::{self, BlkError, Buffers, StorageError, VirtioBlk};
use beetos_kernel::platform::qemu_virt::input::{
    self, decode_event, keycode_to_ascii, DevKind, InputEvent, InputMemory, TabletAction,
};
use beetos_kernel::platform::qemu_virt::net::{self, NetMemory};
use beetos_kernel::platform::qemu_virt::rng::{self, Refill};
use beetos_kernel::platform::qemu_virt::virtio::device::{
    ack_interrupt, init_device, next_transport, notify, probe_transport, read_config_u32,
    read_config_u64, reset_device,
};
use beetos_kernel::platform::qemu_virt::virtio::queue::{
    VirtqDesc, VirtqUsed, VirtqUsedElem, Virtqueue,
};
use beetos_kernel::platform::qemu_virt::virtio::{regs, VIRTIO_MAGIC};

/// A bus of transports: a register reads what was set or written.
#[derive(Clone)]
struct Bus {
    regs: Rc<RefCell<BTreeMap<usize, u32>>>,
    writes: Rc<RefCell<Vec<(usize, u32)>>>,
}

impl Bus {
    fn new() -> Self {
        Bus {
            regs: Rc::new(RefCell::new(BTreeMap::new())),
            writes: Rc::new(RefCell::new(Vec::new())),
        }
    }
    fn set(&self, at: usize, v: u32) {
        self.regs.borrow_mut().insert(at, v);
    }
    fn device(&self, slot: usize, id: u32) -> usize {
        let base = slot * 0x200;
        self.set(base + regs::MAGIC_VALUE, VIRTIO_MAGIC);
        self.set(base + regs::VERSION, 1);
        self.set(base + regs::DEVICE_ID, id);
        self.set(base + regs::QUEUE_NUM_MAX, 128);
        base
    }
    fn written(&self, at: usize) -> Vec<u32> {
        self.writes.borrow().iter().filter(|w| w.0 == at).map(|w| w.1).collect()
    }
}

impl Mmio for Bus {
    fn trace(&self) -> Trace {
        unreachable!()
    }
    fn read32(&mut self, at: usize) -> u32 {
        *self.regs.borrow().get(&at).unwrap_or(&0)
    }
    fn write32(&mut self, at: usize, v: u32) {
        self.regs.borrow_mut().insert(at, v);
        self.writes.borrow_mut().push((at, v));
    }
}

fn gic() -> (Bus, Gic<Bus, Bus>) {
    let d = Bus::new();
    (d.clone(), Gic { gicd: d, gicr: Bus::new() })
}

fn used(num: usize, done: &[(u32, u32)]) -> VirtqUsed {
    let mut ring = vec![VirtqUsedElem { id: 0, len: 0 }; num];
    for (i, (id, len)) in done.iter().enumerate() {
        ring[i % num] = VirtqUsedElem { id: *id, len: *len };
    }
    VirtqUsed { flags: 0, idx: done.len() as u16, ring }
}

#[test]
fn queue_layout_size() {
    assert_eq!(Virtqueue::size_bytes(16, 16384), 16384 + 6 + 8 * 16);
    assert_eq!(Virtqueue::size_bytes(128, 4096), 4096 + 6 + 8 * 128);
}

#[test]
fn queue_hands_out_every_descriptor_once() {
    let mut q = Virtqueue::init(0x4000_0000, 4);
    let got: Vec<u16> = (0..4).map(|_| q.alloc_desc().unwrap()).collect();
    let mut sorted = got.clone();
    sorted.sort();
    assert_eq!(sorted, vec![0, 1, 2, 3]);
    assert_eq!(q.alloc_desc(), None);
    q.free_desc(got[2]);
    assert_eq!(q.num_free, 1);
    assert_eq!(q.alloc_desc(), Some(got[2]));
}

#[test]
fn queue_frees_chains() {
    let mut q = Virtqueue::init(0, 4);
    let a = q.alloc_desc().unwrap();
    let b = q.alloc_desc().unwrap();
    q.set_desc(a, VirtqDesc { addr: 1, len: 2, flags: 1, next: b });
    q.set_desc(b, VirtqDesc { addr: 3, len: 4, flags: 0, next: 0 });
    assert_eq!(q.num_free, 2);
    q.free_chain(a);
    assert_eq!(q.num_free, 4);
    assert_eq!((q.free_head, q.desc[b as usize].next), (b, a));
    assert_eq!((q.desc[a as usize].addr, q.desc[a as usize].flags), (0, 0));
}

#[test]
fn queue_frees_again_what_is_free() {
    let mut q = Virtqueue::init(0, 4);
    q.free_chain(0);
    assert_eq!((q.num_free, q.free_head, q.desc[0].next), (5, 0, 0));
    let mut q = Virtqueue::init(0, 4);
    q.free_chain(2);
    assert_eq!((q.num_free, q.free_head, q.desc[2].next, q.desc[1].next), (5, 2, 0, 2));
    q.free_chain(9);
    assert_eq!(q.num_free, 5);
}

#[test]
fn queue_frees_a_chain_that_leads_into_itself() {
    let mut q = Virtqueue::init(0, 4);
    let a = q.alloc_desc().unwrap();
    let b = q.alloc_desc().unwrap();
    q.set_desc(a, VirtqDesc { addr: 1, len: 2, flags: 1, next: b });
    q.set_desc(b, VirtqDesc { addr: 3, len: 4, flags: 1, next: a });
    q.free_chain(a);
    assert_eq!((q.num_free, q.free_head, q.desc[a as usize].next), (5, a, b));
}

#[test]
fn queue_starts_with_its_flags_clear() {
    let mut q = Virtqueue::init(0, 4);
    assert_eq!((q.avail.flags, q.avail.idx), (0, 0));
    q.push_avail(3);
    assert_eq!(q.avail.flags, 0);
}

#[test]
fn queue_gives_what_was_used_in_order() {
    let mut q = Virtqueue::init(0, 2);
    q.push_avail(1);
    assert_eq!((q.avail.idx, q.avail.ring[0]), (1, 1));
    let u = used(2, &[(1, 10), (0, 20), (1, 30)]);
    assert_eq!(q.pop_used(&u), Some((1, 30)));
    assert_eq!(q.pop_used(&u), Some((0, 20)));
    assert_eq!(q.pop_used(&u), Some((1, 30)));
    assert_eq!(q.pop_used(&u), None);
}

#[test]
fn transports_are_searched() {
    let bus = Bus::new();
    bus.device(3, 2);
    bus.device(9, 2);
    let mut m = bus.clone();
    assert_eq!(probe_transport(&mut m, 3 * 0x200), Some(2));
    assert_eq!(probe_transport(&mut m, 4 * 0x200), None);
    assert_eq!(next_transport(&mut m, 0, 0, 2), Some(3));
    assert_eq!(next_transport(&mut m, 0, 4, 2), Some(9));
    assert_eq!(next_transport(&mut m, 0, 10, 2), None);
    assert_eq!(next_transport(&mut m, 0, 0, 1), None);
}

#[test]
fn device_that_refuses_features_is_failed() {
    #[derive(Clone)]
    struct Stubborn(Bus);
    impl Mmio for Stubborn {
        fn trace(&self) -> Trace {
            unreachable!()
        }
        fn read32(&mut self, at: usize) -> u32 {
            if at == regs::STATUS {
                3
            } else {
                self.0.read32(at)
            }
        }
        fn write32(&mut self, at: usize, v: u32) {
            self.0.write32(at, v)
        }
    }
    let bus = Bus::new();
    let mut m = Stubborn(bus.clone());
    assert_eq!(init_device(&mut m, 0, 0), None);
    assert_eq!(bus.written(regs::STATUS), vec![0, 1, 3, 11, 128]);
}

#[test]
fn device_registers() {
    let bus = Bus::new();
    bus.set(regs::HOST_FEATURES, 0xF0);
    bus.set(regs::CONFIG, 0x1111_2222);
    bus.set(regs::CONFIG + 4, 0x3333_4444);
    bus.set(regs::INTERRUPT_STATUS, 1);
    let mut m = bus.clone();
    assert_eq!(init_device(&mut m, 0, 0x30), Some(0x30));
    assert_eq!(read_config_u32(&mut m, 0, 4), 0x3333_4444);
    assert_eq!(read_config_u64(&mut m, 0, 0), 0x3333_4444_1111_2222);
    assert_eq!(ack_interrupt(&mut m, 0), 1);
    assert_eq!(bus.written(regs::INTERRUPT_ACK), vec![1]);
    notify(&mut m, 0, 5);
    assert_eq!(bus.written(regs::QUEUE_NOTIFY), vec![5]);
    reset_device(&mut m, 0);
    assert_eq!(bus.written(regs::STATUS).last(), Some(&0));
}

#[test]
fn block_device_is_found() {
    let bus = Bus::new();
    let dead = bus.device(1, 2);
    let base = bus.device(5, 2);
    bus.set(dead + regs::CONFIG, 0);
    bus.set(base + regs::CONFIG, 2048);
    let (distributor, mut g) = gic();
    let mut m = bus.clone();
    let dev = blk::probe_and_init(&mut m, &mut g, 0, 0x4800_0000);
    assert!(blk::is_available(&dev));
    assert_eq!(blk::capacity(&dev), 2048);
    assert_eq!(blk::irq_number(&dev), Some(53));
    assert_eq!(bus.written(base + regs::STATUS), vec![0, 1, 3, 11, 15]);
    assert_eq!(bus.written(base + regs::QUEUE_PFN), vec![0x4800_0000 / 16384]);
    assert_eq!(distributor.written(0x100 + 4), vec![1 << 21]);
    assert_eq!(blk::check_request(&dev, 2047, 512), Ok(()));
    assert_eq!(blk::check_request(&dev, 2047, 1024), Err(BlkError::OutOfRange));
    assert_eq!(blk::check_request(&None, 0, 512), Err(BlkError::NoDevice));
    assert_eq!(blk::check_request(&dev, 0, 100), Err(BlkError::InvalidSize));
    bus.set(base + regs::INTERRUPT_STATUS, 3);
    blk::handle_irq(&dev, &mut m);
    assert_eq!(bus.written(base + regs::INTERRUPT_ACK), vec![3]);
}

#[test]
fn block_request_is_a_chain_of_three() {
    let bus = Bus::new();
    let base = bus.device(0, 2);
    bus.set(base + regs::CONFIG, 64);
    let (_, mut g) = gic();
    let mut dev = blk::probe_and_init(&mut bus.clone(), &mut g, 0, 0x4800_0000).unwrap();
    let b = Buffers { header: 0x1000, data: 0x2000, data_len: 512, status: 0x3000 };
    let mut req = dev.begin(false, b).unwrap();
    let d0 = dev.queue.desc[req.head as usize];
    assert_eq!((d0.addr, d0.len, d0.flags), (0x1000, 16, 1));
    let d1 = dev.queue.desc[d0.next as usize];
    assert_eq!((d1.addr, d1.len, d1.flags), (0x2000, 512, 3));
    let d2 = dev.queue.desc[d1.next as usize];
    assert_eq!((d2.addr, d2.len, d2.flags), (0x3000, 1, 2));
    assert_eq!(dev.queue.num_free, 13);
    assert!(dev.poll(&mut req, &used(16, &[]), 0).is_none());
    let done = used(16, &[(req.head as u32, 513)]);
    assert_eq!(dev.poll(&mut req, &done, 0), Some(Ok(())));
    assert_eq!(dev.queue.num_free, 16);
}

#[test]
fn block_requests_that_fail() {
    let bus = Bus::new();
    let base = bus.device(0, 2);
    bus.set(base + regs::CONFIG, 64);
    let (_, mut g) = gic();
    let mut dev = blk::probe_and_init(&mut bus.clone(), &mut g, 0, 0x4800_0000).unwrap();
    let b = Buffers { header: 0x1000, data: 0x2000, data_len: 512, status: 0x3000 };
    let mut reqs = Vec::new();
    for _ in 0..5 {
        reqs.push(dev.begin(true, b).unwrap());
    }
    assert!(matches!(dev.begin(true, b), Err(BlkError::DeviceFailed)));
    assert_eq!(dev.queue.num_free, 1);
    let done = used(16, &[(reqs[0].head as u32, 1)]);
    assert_eq!(dev.poll(&mut reqs[0], &done, 1), Some(Err(BlkError::IoError)));
    assert_eq!(VirtioBlk::map_error(BlkError::OutOfRange), StorageError::OutOfRange);
    reqs[1].spins = 10_000_000;
    assert_eq!(dev.poll(&mut reqs[1], &done, 0), Some(Err(BlkError::DeviceFailed)));
}

#[test]
fn block_request_header() {
    let h = blk::request_header(true, 0x1_0000_0002);
    assert_eq!(h, vec![1, 0, 0, 0, 0, 0, 0, 0, 2, 0, 0, 0, 1, 0, 0, 0]);
    assert_eq!(blk::request_header(false, 0)[0], 0);
}

fn net_device() -> (Bus, usize, net::NetDev) {
    let bus = Bus::new();
    let base = bus.device(2, 1);
    bus.set(base + regs::HOST_FEATURES, 32);
    bus.set(base + regs::CONFIG, 0x1200_5452);
    bus.set(base + regs::CONFIG + 4, 0x0000_5634);
    let (_, mut g) = gic();
    let mem = NetMemory {
        rx_queue: 0x4800_0000,
        tx_queue: 0x4900_0000,
        rx_bufs: (0..16).map(|i| 0x5000_0000 + i * 2048).collect(),
        tx_buf: 0x5100_0000,
    };
    let dev = net::probe_and_init(&mut bus.clone(), &mut g, 0, &mem).unwrap();
    (bus, base, dev)
}

#[test]
fn network_device_is_found() {
    let (_bus, _base, dev) = net_device();
    let dev = Some(dev);
    assert!(net::is_available(&dev));
    assert_eq!(net::get_mac(&dev), Some([0x52, 0x54, 0x00, 0x12, 0x34, 0x56]));
    assert_eq!(net::irq_number(&dev), Some(50));
    assert!(!net::is_available(&None));
    let dev = dev.unwrap();
    assert_eq!(dev.rx_queue.num_free, 0);
    assert_eq!(dev.rx_queue.avail.idx, 16);
    assert_eq!(dev.tx_queue.num_free, 16);
}

#[test]
fn frames_are_received_and_given_back() {
    let (_bus, _base, mut dev) = net_device();
    let u = used(16, &[(4, 12), (6, 70)]);
    assert_eq!(dev.poll_recv(&u), (Some((6, 60)), 1));
    let buf = dev.rx_buffer(6);
    assert!(buf < 16);
    assert_eq!(dev.rx_queue.desc[6].addr, dev.rx_bufs[buf]);
    dev.return_rx_buffer(6);
    assert_eq!(dev.rx_queue.avail.idx, 18);
    assert_eq!(dev.poll_recv(&u), (None, 0));
    let mut raw = vec![0u8; 1536];
    raw[10] = 9;
    assert_eq!(net::get_rx_frame(&raw, 14)[0], 9);
}

#[test]
fn frames_are_sent() {
    let (_bus, _base, mut dev) = net_device();
    let none = used(16, &[]);
    assert!(dev.send_packet(&[0; 1519], &none).is_none());
    let mut job = dev.send_packet(&[7; 60], &none).unwrap();
    assert_eq!(job.packet.len(), 70);
    assert_eq!(&job.packet[..11], &[0, 0, 0, 0, 0, 0, 0, 0, 0, 0, 7]);
    assert_eq!(dev.tx_queue.num_free, 15);
    assert!(!dev.poll_sent(&mut job, &none));
    let head = dev.tx_queue.avail.ring[0];
    assert!(dev.poll_sent(&mut job, &used(16, &[(head as u32, 70)])));
    assert_eq!(dev.tx_queue.num_free, 16);
}

#[test]
fn entropy_fills_the_pool() {
    let bus = Bus::new();
    bus.device(7, 4);
    let mut m = bus.clone();
    let mut rng = rng::probe_and_init(&mut m, 0, 0x4800_0000);
    assert_eq!(rng.get_u32(), None);
    assert!(rng.begin_refill(0x5000_0000));
    let data: Vec<u8> = (1..=64).collect();
    let mut spins = 0;
    assert!(matches!(
        rng.poll_refill(&mut m, &mut spins, &used(8, &[]), &data),
        Refill::Waiting
    ));
    let head = rng.dev.as_ref().unwrap().queue.avail.ring[0];
    let done = used(8, &[(head as u32, 6)]);
    assert!(matches!(rng.poll_refill(&mut m, &mut spins, &done, &data), Refill::Filled));
    assert_eq!(rng.get_u32(), Some(0x0605_0403));
    assert_eq!(rng.pool[2..6], [0, 0, 0, 0]);
    assert_eq!(rng.get_u32(), None);
    assert_eq!(rng.dev.as_ref().unwrap().queue.num_free, 8);
}

#[test]
fn entropy_device_that_is_silent_is_given_up() {
    let bus = Bus::new();
    bus.device(7, 4);
    let mut m = bus.clone();
    let mut rng = rng::probe_and_init(&mut m, 0, 0x4800_0000);
    assert!(rng.begin_refill(0x5000_0000));
    let mut spins = 10_000_000;
    assert!(matches!(
        rng.poll_refill(&mut m, &mut spins, &used(8, &[]), &[0; 64]),
        Refill::Dry
    ));
    assert!(rng.dev.is_none());
    assert!(!rng.begin_refill(0x5000_0000));
}

#[test]
fn keys_make_characters() {
    assert_eq!(keycode_to_ascii(30, false, false), Some(b'a'));
    assert_eq!(keycode_to_ascii(30, true, false), Some(b'A'));
    assert_eq!(keycode_to_ascii(2, false, false), Some(b'1'));
    assert_eq!(keycode_to_ascii(2, true, false), Some(b'!'));
    assert_eq!(keycode_to_ascii(57, false, false), Some(b' '));
    assert_eq!(keycode_to_ascii(500, false, false), None);
}

fn input_devices() -> (Bus, Vec<Option<input::InputDev>>) {
    let bus = Bus::new();
    bus.device(10, 18);
    bus.device(11, 18);
    let mems: Vec<InputMemory> = (0..2)
        .map(|k| InputMemory {
            queue: 0x4800_0000 + k * 0x1_0000,
            bufs: (0..64).map(|i| 0x5000_0000 + k * 0x1_0000 + i * 8).collect(),
        })
        .collect();
    let devs = input::probe_and_init(&mut bus.clone(), 0, &mems);
    (bus, devs)
}

fn event(kind: u16, code: u16, value: u32) -> InputEvent {
    InputEvent { kind, code, value }
}

#[test]
fn keyboard_and_tablet_are_found() {
    let (bus, devs) = input_devices();
    assert_eq!(devs.len(), 2);
    assert_eq!(input::irq_number(&devs), Some(58));
    assert_eq!(input::tablet_irq_number(&devs), Some(59));
    let mut m = bus.clone();
    bus.set(10 * 0x200 + regs::INTERRUPT_STATUS, 1);
    input::ack_irq(&devs, &mut m);
    assert_eq!(bus.written(10 * 0x200 + regs::INTERRUPT_ACK), vec![1]);
    bus.set(11 * 0x200 + regs::INTERRUPT_STATUS, 2);
    input::ack_irq_for(&devs, &mut m, 59);
    assert_eq!(bus.written(11 * 0x200 + regs::INTERRUPT_ACK), vec![2]);
    let (distributor, mut g) = gic();
    input::start(devs[0].as_ref().unwrap(), &mut m, &mut g);
    assert_eq!(distributor.written(0x100 + 4), vec![1 << 26]);
}

#[test]
fn typed_characters_are_taken() {
    let (_bus, mut devs) = input_devices();
    let kb = devs[0].as_mut().unwrap();
    assert_eq!(kb.kind, DevKind::Keyboard);
    let mut events = vec![event(0, 0, 0); 64];
    events[0] = event(1, 42, 1);
    events[1] = event(1, 30, 1);
    events[2] = event(1, 42, 0);
    events[3] = event(1, 48, 1);
    let u = used(64, &[(0, 8), (1, 8), (2, 8), (3, 8)]);
    assert_eq!(kb.get_char(&u, &events), (Some(b'A'), 2));
    assert_eq!(kb.get_char(&u, &events), (Some(b'b'), 2));
    assert_eq!(kb.get_char(&u, &events), (None, 0));
}

#[test]
fn tablet_moves_and_clicks() {
    let (_bus, mut devs) = input_devices();
    let tablet = devs[1].as_mut().unwrap();
    assert_eq!(tablet.kind, DevKind::Tablet);
    let mut events = vec![event(0, 0, 0); 64];
    events[0] = event(3, 0, 100);
    events[1] = event(3, 1, 200);
    events[2] = event(1, 0x110, 1);
    let u = used(64, &[(0, 8), (1, 8), (2, 8), (5, 8)]);
    let (actions, n) = tablet.drain_tablet_events(&u, &events);
    assert_eq!(actions, vec![TabletAction::Move { x: 100, y: 200 }, TabletAction::Click]);
    assert_eq!(n, 4);
    assert_eq!((tablet.abs_x, tablet.abs_y), (100, 200));
}

#[test]
fn tablet_motion_counts_at_the_end_of_its_frame() {
    let (_bus, mut devs) = input_devices();
    let tablet = devs[1].as_mut().unwrap();
    let mut events = vec![event(0, 0, 0); 64];
    events[0] = event(3, 0, 100);
    events[1] = event(3, 1, 200);
    let (actions, _) = tablet.drain_tablet_events(&used(64, &[(0, 8), (1, 8)]), &events);
    assert_eq!(actions, vec![]);
    let (actions, _) = tablet.drain_tablet_events(&used(64, &[(0, 8), (1, 8), (5, 8)]), &events);
    assert_eq!(actions, vec![TabletAction::Move { x: 100, y: 200 }]);
    let u = used(64, &[(0, 8), (1, 8), (5, 8), (6, 8)]);
    assert_eq!(tablet.drain_tablet_events(&u, &events).0, vec![]);
}

#[test]
fn events_are_decoded() {
    assert_eq!(decode_event(&[3, 0, 1, 0, 0x10, 0x27, 0, 0]), event(3, 1, 10000));
}
