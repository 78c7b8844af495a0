//! The launch of the first processes, as a list of steps.
//!
//! The kernel creates the system services, maps the UART for them, reads the
//! disk into pages and maps those for the block service, passes boot parameters
//! and enters the shell. [`next_step`] decides what comes after each step, given
//! whether the step succeeded; [`action_of`] says what a step is.
use vstd::prelude::*;

verus! {

/// Where the UART is mapped in user processes.
pub const SHELL_UART_VA: u64 = 0x10_0100_0000;

/// Where the disk is mapped in the block service.
pub const DISK_DATA_VA: u64 = 0x10_0200_0000;

/// The most pages of disk that are mapped.
pub const MAX_DISK_PAGES: u64 = 256;

/// Sectors in a page.
pub const SECTORS_PER_PAGE: u64 = 32;

/// Bytes in a sector.
pub const SECTOR_SIZE: u64 = 512;

/// Bytes in a page.
pub const DISK_PAGE: u64 = 16384;

/// The process that owns the disk.
pub const BLOCK_PID: u8 = 6;

/// The process that runs first.
pub const SHELL_PID: u8 = 4;

/// Bytes of a saved context.
pub const FRAME_SIZE: u64 = 816;

/// Stack left free below the current stack pointer when a process is entered.
pub const STACK_HEADROOM: u64 = 4096;

/// What a process may ask of the kernel.
#[derive(Clone, Copy, PartialEq, Eq, Structural, Debug)]
pub enum Permission {
    LogServer,
    Procman,
    Shell,
    FsServer,
    UserProgram,
}

/// A process that is created at boot.
#[derive(Clone, Copy)]
pub struct BootProcess {
    pub pid: u8,
    pub name: &'static str,
    pub perm: Permission,
}

impl BootProcess {
    /// This process has the given number, name and permission.
    pub open spec fn is(self, pid: u8, name: Seq<char>, perm: Permission) -> bool {
        self.pid == pid && self.name@ == name && self.perm == perm
    }
}

/// The processes created at boot, in order: the log server first, so that every
/// later one can print.
pub fn boot_processes(test_mode: bool) -> (r: Vec<BootProcess>)
    ensures
        r@.len() == (if test_mode {
            6int
        } else {
            5
        }),
        r@[0].is(2, "log"@, Permission::LogServer),
        r@[1].is(3, "procman"@, Permission::Procman),
        r@[2].is(SHELL_PID, "shell"@, Permission::Shell),
        r@[3].is(5, "fs"@, Permission::FsServer),
        r@[4].is(BLOCK_PID, "block"@, Permission::FsServer),
        test_mode ==> r@[5].is(7, "beetos-test"@, Permission::UserProgram),
{
    let mut r: Vec<BootProcess> = Vec::new();
    r.push(BootProcess { pid: 2, name: "log", perm: Permission::LogServer });
    r.push(BootProcess { pid: 3, name: "procman", perm: Permission::Procman });
    r.push(BootProcess { pid: SHELL_PID, name: "shell", perm: Permission::Shell });
    r.push(BootProcess { pid: 5, name: "fs", perm: Permission::FsServer });
    r.push(BootProcess { pid: BLOCK_PID, name: "block", perm: Permission::FsServer });
    if test_mode {
        r.push(BootProcess { pid: 7, name: "beetos-test", perm: Permission::UserProgram });
    }
    r
}

/// How much of the disk is read.
#[derive(Clone, Copy, PartialEq, Eq, Structural, Debug)]
pub struct DiskPlan {
    /// Sectors on the disk.
    pub capacity: u64,
    /// Bytes on the disk.
    pub bytes: u64,
    /// Pages that hold them.
    pub pages: u64,
}

/// Pages that hold `capacity` sectors.
pub open spec fn pages_for(capacity: int) -> int {
    (capacity * SECTOR_SIZE + DISK_PAGE - 1) / DISK_PAGE as int
}

/// Plans the read of a disk of `capacity` sectors: a disk that is empty or
/// larger than [`MAX_DISK_PAGES`] is left out.
pub fn disk_plan(capacity: u64) -> (r: Option<DiskPlan>)
    ensures
        match r {
            Some(d) => 0 < pages_for(capacity as int) <= MAX_DISK_PAGES && d == (DiskPlan {
                capacity: capacity,
                bytes: (capacity * SECTOR_SIZE) as u64,
                pages: pages_for(capacity as int) as u64,
            }),
            None => !(0 < pages_for(capacity as int) <= MAX_DISK_PAGES),
        },
{
    if capacity == 0 || capacity > MAX_DISK_PAGES * SECTORS_PER_PAGE {
        return None;
    }
    let bytes: u64 = capacity * SECTOR_SIZE;
    let pages: u64 = (bytes + (DISK_PAGE - 1)) / DISK_PAGE;
    Some(DiskPlan { capacity, bytes, pages })
}

impl DiskPlan {
    /// The plan is one that [`disk_plan`] makes.
    pub open spec fn wf(self) -> bool {
        &&& 0 < self.pages <= MAX_DISK_PAGES
        &&& self.pages == pages_for(self.capacity as int)
        &&& self.bytes == self.capacity * SECTOR_SIZE
    }
}

/// One read of the disk: from sector `lba`, `sectors` sectors.
#[derive(Clone, Copy, PartialEq, Eq, Structural, Debug)]
pub struct PageRead {
    pub lba: u64,
    pub sectors: u64,
}

/// The sectors of page `i`: a page's worth, or what is left of the disk.
pub open spec fn read_of(d: DiskPlan, i: int) -> PageRead {
    let first = i * SECTORS_PER_PAGE;
    let left = d.capacity - first;
    PageRead {
        lba: first as u64,
        sectors: (if left < SECTORS_PER_PAGE {
            left
        } else {
            SECTORS_PER_PAGE as int
        }) as u64,
    }
}

/// The sectors to read into page `i`.
pub fn page_read(d: &DiskPlan, i: u64) -> (r: PageRead)
    requires
        d.wf(),
        i < d.pages,
    ensures
        r == read_of(*d, i as int),
        r.sectors > 0,
{
    let lba: u64 = i * SECTORS_PER_PAGE;
    let remaining: u64 = d.bytes - i * DISK_PAGE;
    let read_len: u64 = if remaining < DISK_PAGE { remaining } else { DISK_PAGE };
    let sectors: u64 = (read_len + (SECTOR_SIZE - 1)) / SECTOR_SIZE;
    PageRead { lba, sectors }
}

/// The reads cover the disk without gap or overlap: each starts where the one
/// before it ends, the first at sector 0, and the last ends with the disk.
pub proof fn law_reads_cover_disk(d: DiskPlan, i: int)
    requires
        d.wf(),
        0 <= i < d.pages,
    ensures
        read_of(d, 0).lba == 0,
        i + 1 < d.pages ==> read_of(d, i).lba + read_of(d, i).sectors == read_of(d, i + 1).lba,
        i + 1 == d.pages ==> read_of(d, i).lba + read_of(d, i).sectors == d.capacity,
{
}

/// What a launch works with.
pub struct LaunchPlan {
    pub processes: Vec<BootProcess>,
    /// The platform has a UART that processes may map.
    pub uart: bool,
    /// The disk, if there is one to read.
    pub disk: Option<DiskPlan>,
}

impl LaunchPlan {
    /// There is a process, and the disk is planned.
    pub open spec fn wf(&self) -> bool {
        &&& 0 < self.processes@.len() <= 255
        &&& self.disk matches Some(d) ==> d.wf()
    }
}

/// A step of the launch.
#[derive(Clone, Copy, PartialEq, Eq, Structural, Debug)]
pub enum LaunchStep {
    /// Create process number `i` of the list.
    Create(usize),
    /// Map the UART for it.
    MapUart(usize),
    /// Take a page for page `i` of the disk; whether all so far were taken.
    Alloc(u64, bool),
    /// Read page `i` of the disk.
    Read(u64),
    /// Map page `i` of the disk for the block service.
    MapDisk(u64),
    /// Pass its parameters to process number `i`; whether the disk is mapped.
    Args(usize, bool),
    /// Enter the shell.
    Enter,
}

/// What comes after a step that went well (`ok`) or did not.
pub open spec fn step_after(p: LaunchPlan, s: LaunchStep, ok: bool) -> LaunchStep {
    let n = p.processes@.len();
    match s {
        LaunchStep::Create(i) => if i + 1 < n {
            LaunchStep::Create((i + 1) as usize)
        } else if p.uart {
            LaunchStep::MapUart(0)
        } else {
            LaunchStep::Args(0, false)
        },
        LaunchStep::MapUart(i) => if i + 1 < n {
            LaunchStep::MapUart((i + 1) as usize)
        } else if p.disk is Some {
            LaunchStep::Alloc(0, true)
        } else {
            LaunchStep::Args(0, false)
        },
        LaunchStep::Alloc(i, all) => match p.disk {
            Some(d) if i + 1 < d.pages => LaunchStep::Alloc((i + 1) as u64, all && ok),
            _ => if all && ok {
                LaunchStep::Read(0)
            } else {
                LaunchStep::Args(0, false)
            },
        },
        LaunchStep::Read(i) => match p.disk {
            _ if !ok => LaunchStep::Args(0, false),
            Some(d) if i + 1 < d.pages => LaunchStep::Read((i + 1) as u64),
            _ => LaunchStep::MapDisk(0),
        },
        LaunchStep::MapDisk(i) => match p.disk {
            Some(d) if i + 1 < d.pages => LaunchStep::MapDisk((i + 1) as u64),
            _ => LaunchStep::Args(0, true),
        },
        LaunchStep::Args(i, disk) => if i + 1 < n {
            LaunchStep::Args((i + 1) as usize, disk)
        } else {
            LaunchStep::Enter
        },
        LaunchStep::Enter => LaunchStep::Enter,
    }
}

/// Decides the next step.
pub fn next_step(p: &LaunchPlan, s: LaunchStep, ok: bool) -> (r: LaunchStep)
    requires
        p.wf(),
    ensures
        r == step_after(*p, s, ok),
{
    let n: usize = p.processes.len();
    let pages: u64 = match p.disk {
        Some(d) => d.pages,
        None => 0,
    };
    match s {
        LaunchStep::Create(i) => {
            if i < n - 1 {
                LaunchStep::Create(i + 1)
            } else if p.uart {
                LaunchStep::MapUart(0)
            } else {
                LaunchStep::Args(0, false)
            }
        },
        LaunchStep::MapUart(i) => {
            if i < n - 1 {
                LaunchStep::MapUart(i + 1)
            } else if p.disk.is_some() {
                LaunchStep::Alloc(0, true)
            } else {
                LaunchStep::Args(0, false)
            }
        },
        LaunchStep::Alloc(i, all) => {
            if pages > 0 && i < pages - 1 {
                LaunchStep::Alloc(i + 1, all && ok)
            } else if all && ok {
                LaunchStep::Read(0)
            } else {
                LaunchStep::Args(0, false)
            }
        },
        LaunchStep::Read(i) => {
            if !ok {
                LaunchStep::Args(0, false)
            } else if pages > 0 && i < pages - 1 {
                LaunchStep::Read(i + 1)
            } else {
                LaunchStep::MapDisk(0)
            }
        },
        LaunchStep::MapDisk(i) => {
            if pages > 0 && i < pages - 1 {
                LaunchStep::MapDisk(i + 1)
            } else {
                LaunchStep::Args(0, true)
            }
        },
        LaunchStep::Args(i, disk) => {
            if i < n - 1 {
                LaunchStep::Args(i + 1, disk)
            } else {
                LaunchStep::Enter
            }
        },
        LaunchStep::Enter => LaunchStep::Enter,
    }
}

/// What a step asks the kernel to do.
#[derive(Clone, Copy, PartialEq, Eq, Structural, Debug)]
pub enum Action {
    /// Create process number `i` of the list.
    CreateProcess(usize),
    /// Map the UART, writable device memory, at [`SHELL_UART_VA`] for `pid`.
    MapUart(u8),
    /// Take a zeroed page of the kernel for page `i` of the disk.
    AllocDiskPage(u64),
    /// Read sectors of the disk into page `i`.
    ReadDisk(u64, PageRead),
    /// Map page `i` of the disk, read-only, at this address for `pid`.
    MapDiskPage(u64, u8, u64),
    /// Pass three boot parameters to `pid`.
    SetArgs(u8, u64, u64, u64),
    /// Enter `pid`.
    EnterUser(u8),
}

/// The boot parameters of a process: the UART, and for the block service the
/// disk when it is mapped.
pub open spec fn args_for(p: LaunchPlan, pid: u8, disk: bool) -> Action {
    match p.disk {
        Some(d) if disk && pid == BLOCK_PID => Action::SetArgs(
            pid,
            SHELL_UART_VA,
            DISK_DATA_VA,
            d.bytes,
        ),
        _ => Action::SetArgs(pid, SHELL_UART_VA, 0, 0),
    }
}

/// The step is one that a launch of this plan can reach.
pub open spec fn step_ok(p: LaunchPlan, s: LaunchStep) -> bool {
    match s {
        LaunchStep::Create(i) | LaunchStep::MapUart(i) | LaunchStep::Args(i, _) => i
            < p.processes@.len(),
        LaunchStep::Alloc(i, _) | LaunchStep::Read(i) | LaunchStep::MapDisk(i) => p.disk matches Some(
            d,
        ) && i < d.pages,
        LaunchStep::Enter => true,
    }
}

/// What a step is.
pub open spec fn action(p: LaunchPlan, s: LaunchStep) -> Action {
    match s {
        LaunchStep::Create(i) => Action::CreateProcess(i),
        LaunchStep::MapUart(i) => Action::MapUart(p.processes@[i as int].pid),
        LaunchStep::Alloc(i, _) => Action::AllocDiskPage(i),
        LaunchStep::Read(i) => Action::ReadDisk(i, read_of(p.disk->0, i as int)),
        LaunchStep::MapDisk(i) => Action::MapDiskPage(
            i,
            BLOCK_PID,
            (DISK_DATA_VA + i * DISK_PAGE) as u64,
        ),
        LaunchStep::Args(i, disk) => args_for(p, p.processes@[i as int].pid, disk),
        LaunchStep::Enter => Action::EnterUser(SHELL_PID),
    }
}

/// Says what a step is.
pub fn action_of(p: &LaunchPlan, s: LaunchStep) -> (r: Action)
    requires
        p.wf(),
        step_ok(*p, s),
    ensures
        r == action(*p, s),
{
    match s {
        LaunchStep::Create(i) => Action::CreateProcess(i),
        LaunchStep::MapUart(i) => Action::MapUart(p.processes[i].pid),
        LaunchStep::Alloc(i, _) => Action::AllocDiskPage(i),
        LaunchStep::Read(i) => match p.disk {
            Some(d) => Action::ReadDisk(i, page_read(&d, i)),
            None => Action::EnterUser(SHELL_PID),
        },
        LaunchStep::MapDisk(i) => Action::MapDiskPage(i, BLOCK_PID, DISK_DATA_VA + i * DISK_PAGE),
        LaunchStep::Args(i, disk) => {
            let pid: u8 = p.processes[i].pid;
            match p.disk {
                Some(d) => {
                    if disk && pid == BLOCK_PID {
                        Action::SetArgs(pid, SHELL_UART_VA, DISK_DATA_VA, d.bytes)
                    } else {
                        Action::SetArgs(pid, SHELL_UART_VA, 0, 0)
                    }
                },
                None => Action::SetArgs(pid, SHELL_UART_VA, 0, 0),
            }
        },
        LaunchStep::Enter => Action::EnterUser(SHELL_PID),
    }
}

/// How many steps are left at most.
pub open spec fn steps_left(p: LaunchPlan, s: LaunchStep) -> int {
    let n = p.processes@.len();
    let k = match p.disk {
        Some(d) => d.pages as int,
        None => 0,
    };
    match s {
        LaunchStep::Create(i) => (n - i) + n + 3 * k + n,
        LaunchStep::MapUart(i) => (n - i) + 3 * k + n,
        LaunchStep::Alloc(i, _) => (k - i) + 2 * k + n,
        LaunchStep::Read(i) => (k - i) + k + n,
        LaunchStep::MapDisk(i) => (k - i) + n,
        LaunchStep::Args(i, _) => n - i,
        LaunchStep::Enter => 0,
    }
}

/// Every launch comes to an end, whatever succeeds or fails on the way, and
/// never asks for a step that does not exist.
pub proof fn law_launch_ends(p: LaunchPlan, s: LaunchStep, ok: bool)
    requires
        p.wf(),
        step_ok(p, s),
    ensures
        step_ok(p, step_after(p, s, ok)),
        steps_left(p, s) >= 0,
        s != LaunchStep::Enter ==> steps_left(p, step_after(p, s, ok)) < steps_left(p, s),
{
}

/// The launch goes on without the disk: it no longer reads or maps it.
pub open spec fn without_disk(s: LaunchStep) -> bool {
    match s {
        LaunchStep::Alloc(_, all) => !all,
        LaunchStep::Args(_, disk) => !disk,
        LaunchStep::Enter => true,
        _ => false,
    }
}

/// When a page cannot be had or a read fails, the launch goes on without the disk,
/// it does so to its end whatever follows, and the parameters of every process go
/// out without it.
pub proof fn law_failed_disk_is_not_announced(p: LaunchPlan, s: LaunchStep, ok: bool)
    requires
        p.wf(),
        step_ok(p, s),
    ensures
        s is Alloc || s is Read ==> without_disk(step_after(p, s, false)),
        without_disk(s) ==> without_disk(step_after(p, s, ok)),
        without_disk(s) && s is Args ==> action(p, s) == Action::SetArgs(
            p.processes@[s->Args_0 as int].pid,
            SHELL_UART_VA,
            0,
            0,
        ),
{
}

/// The disk is mapped only after every page of it was taken and read: reading starts
/// when all pages were taken, mapping when the last page was read, and only then is
/// the disk announced.
pub proof fn law_announced_disk_was_read(p: LaunchPlan, s: LaunchStep, ok: bool)
    requires
        p.wf(),
        step_ok(p, s),
    ensures
        step_after(p, s, ok) == LaunchStep::Read(0) ==> p.disk is Some && ok
            && s == LaunchStep::Alloc((p.disk->0.pages - 1) as u64, true),
        step_after(p, s, ok) == LaunchStep::MapDisk(0) ==> p.disk is Some && ok
            && s == LaunchStep::Read((p.disk->0.pages - 1) as u64),
        step_after(p, s, ok) == LaunchStep::Args(0, true) ==> p.disk is Some
            && s == LaunchStep::MapDisk((p.disk->0.pages - 1) as u64),
{
}

/// The steps of a launch in which everything goes well, counted from its start.
pub open spec fn nth_step(p: LaunchPlan, t: nat) -> LaunchStep
    decreases t,
{
    if t == 0 {
        LaunchStep::Create(0)
    } else {
        step_after(p, nth_step(p, (t - 1) as nat), true)
    }
}

/// A launch with a UART and a disk in which everything goes well does everything, once and in
/// order: it creates every process, maps the UART for every process, takes, reads and maps
/// every page of the disk, passes every process its parameters, and enters the first one.
pub proof fn law_launch_does_everything(p: LaunchPlan, t: nat)
    requires
        p.wf(),
        p.uart,
        p.disk is Some,
    ensures
        ({
            let n = p.processes@.len();
            let k = p.disk->0.pages as nat;
            nth_step(p, t) == (if t < n {
                LaunchStep::Create(t as usize)
            } else if t < 2 * n {
                LaunchStep::MapUart((t - n) as usize)
            } else if t < 2 * n + k {
                LaunchStep::Alloc((t - 2 * n) as u64, true)
            } else if t < 2 * n + 2 * k {
                LaunchStep::Read((t - 2 * n - k) as u64)
            } else if t < 2 * n + 3 * k {
                LaunchStep::MapDisk((t - 2 * n - 2 * k) as u64)
            } else if t < 3 * n + 3 * k {
                LaunchStep::Args((t - 2 * n - 3 * k) as usize, true)
            } else {
                LaunchStep::Enter
            })
        }),
    decreases t,
{
    if t > 0 {
        law_launch_does_everything(p, (t - 1) as nat);
    }
}

/// Every sector of the disk is where the block service finds it: 512 bytes further on for
/// each sector, from the address on that it is told, up to the size that it is told. The page
/// that holds a sector is read with that sector at its place, and mapped for process 6 alone.
pub proof fn law_sectors_are_in_place(p: LaunchPlan, sector: int)
    requires
        p.wf(),
        p.disk is Some,
        0 <= sector < p.disk->0.capacity,
    ensures
        ({
            let d = p.disk->0;
            let i = sector / 32;
            let r = read_of(d, i);
            let at = 0x10_0200_0000 + 512 * sector;
            &&& 0 <= i < d.pages
            &&& action(p, LaunchStep::Read(i as u64)) == Action::ReadDisk(i as u64, r)
            &&& r.lba <= sector < r.lba + r.sectors
            &&& action(p, LaunchStep::MapDisk(i as u64)) == Action::MapDiskPage(
                i as u64,
                6,
                (at - 512 * (sector - r.lba)) as u64,
            )
            &&& r.lba * 512 + 0x10_0200_0000 == at - 512 * (sector - r.lba)
            &&& args_for(p, 6, true) == Action::SetArgs(
                6,
                0x10_0100_0000,
                0x10_0200_0000,
                (512 * d.capacity) as u64,
            )
        }),
{
}

/// Where the saved context of the first process goes: below the current stack
/// with some headroom, on a 16-byte boundary.
pub fn entry_frame(sp: u64) -> (r: u64)
    requires
        sp >= STACK_HEADROOM + FRAME_SIZE,
    ensures
        r == (sp - STACK_HEADROOM - FRAME_SIZE) / 16 * 16,
        r + FRAME_SIZE + STACK_HEADROOM <= sp,
        r % 16 == 0,
{
    (sp - STACK_HEADROOM - FRAME_SIZE) / 16 * 16
}

} // verus!
