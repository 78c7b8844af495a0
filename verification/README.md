# beetos_kernel

The logic of the BeetOS kernel, written and proved in Verus: what it computes and
decides is in `src/`, and what touches the machine is in `app/`.

- `src/arch/aarch64` — boot layout and device trees, page tables, program loading,
  processes and threads, interrupts, random numbers
- `src/platform` — the interrupt controller, the serial port and the timer; the QEMU
  machine with its virtio devices, network stack and TCP; the BCM2712
- `src/sdhci.rs`, `src/nvme.rs`, `src/pcie.rs`, `src/block.rs` — storage
- `src/async_rt` — tasks that take turns
- `src/font.rs`, `src/kfuture.rs`, `src/mem.rs`, `src/ring.rs`, `src/bytes.rs`

Device registers are reached through the trait `mmio::Mmio`. A contract of a driver
speaks of the accesses that it makes, for every answer that a device may give.

`tests/` runs the library against simulated devices.

`app/` sets up the two machines and runs their interrupts. Windows, pixels, process
creation and scheduling come from other crates, through traits.
