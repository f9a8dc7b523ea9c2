use kernel_core::fs::flags::{
    open_plan, OpenFlags, OpenPlan, StatMode, CREATE, MODE_DIR, MODE_FILE, MODE_NULL, RDONLY, RDWR,
    TRUNC, WRONLY,
};
use kernel_core::fs::inode::{FileDescriptor, OSInode};
use kernel_core::fs::stdio::{Stdin, Stdout};
use kernel_core::fs::File;
use kernel_core::syscall::fs::{
    advance_file, sys_close, sys_fstat, sys_open, sys_read, sys_write,
};
use kernel_core::syscall::process::{sys_mmap, sys_munmap, sys_task_info, MapRequest};
use kernel_core::task::control_block::TaskStatus;
use kernel_core::task::dispatch::run_tasks;
use kernel_core::task::kernel::Kernel;

fn running_kernel() -> Kernel {
    let mut kernel = Kernel::new();
    assert_eq!(kernel.add_process(None, 1), Some(0));
    assert_eq!(run_tasks(&mut kernel, 7_000_000), Some(0));
    kernel
}

fn inode(ino: u32, mode: u32) -> OSInode {
    OSInode::new(true, false, ino, mode, 40, 128)
}

#[test]
fn open_flags_know_their_bits() {
    assert_eq!(OpenFlags::from_bits(0).map(|f| f.bits), Some(0));
    assert_eq!(OpenFlags::from_bits(CREATE | WRONLY).map(|f| f.bits), Some(513));
    assert_eq!(OpenFlags::from_bits(RDWR | TRUNC).map(|f| f.bits), Some(1026));
    assert!(OpenFlags::from_bits(4).is_none());
    assert!(OpenFlags::from_bits(1 << 11).is_none());
    assert!(OpenFlags::from_bits(u32::MAX).is_none());
    let flags = OpenFlags::from_bits(CREATE | WRONLY).unwrap();
    assert!(flags.contains(CREATE));
    assert!(flags.contains(WRONLY));
    assert!(flags.contains(RDONLY));
    assert!(!flags.contains(TRUNC));
    assert!(!flags.is_empty());
    assert!(OpenFlags::from_bits(RDONLY).unwrap().is_empty());
}

#[test]
fn read_write_permission_from_flags() {
    let access = |bits: u32| OpenFlags::from_bits(bits).unwrap().read_write();
    assert_eq!(access(RDONLY), (true, false));
    assert_eq!(access(WRONLY), (false, true));
    assert_eq!(access(RDWR), (true, true));
    assert_eq!(access(CREATE), (true, true));
    assert_eq!(access(CREATE | WRONLY), (false, true));
    assert_eq!(access(TRUNC | RDWR), (true, true));
    assert_eq!(access(WRONLY | RDWR), (false, true));
}

#[test]
fn open_plan_follows_create_and_truncate() {
    let plan = |bits: u32, exists: bool| open_plan(OpenFlags::from_bits(bits).unwrap(), exists);
    assert_eq!(plan(RDONLY, true), OpenPlan::Open);
    assert_eq!(plan(RDONLY, false), OpenPlan::Fail);
    assert_eq!(plan(WRONLY, false), OpenPlan::Fail);
    assert_eq!(plan(TRUNC | WRONLY, true), OpenPlan::Clear);
    assert_eq!(plan(TRUNC, false), OpenPlan::Fail);
    assert_eq!(plan(CREATE, true), OpenPlan::Clear);
    assert_eq!(plan(CREATE, false), OpenPlan::Create);
    assert_eq!(plan(CREATE | TRUNC | RDWR, false), OpenPlan::Create);
}

#[test]
fn stat_mode_of_inode_numbers() {
    assert_eq!(StatMode::of_inode(0).bits, MODE_NULL);
    assert_eq!(StatMode::of_inode(1).bits, MODE_DIR);
    assert_eq!(StatMode::of_inode(2).bits, MODE_FILE);
    assert_eq!(StatMode::of_inode(77).bits, MODE_FILE);
    assert_eq!((MODE_NULL, MODE_DIR, MODE_FILE), (0, 16384, 32768));
}

#[test]
fn console_files_describe_themselves() {
    assert!(Stdin.readable());
    assert!(!Stdin.writable());
    assert!(!Stdout.readable());
    assert!(Stdout.writable());
    assert_eq!(Stdin.get_ino(), 0);
    assert_eq!(Stdout.get_ino(), 0);
    assert_eq!(Stdin.get_mode().bits, MODE_NULL);
    assert_eq!(Stdout.get_mode().bits, MODE_NULL);
    assert_eq!((Stdin.get_block_id(), Stdin.get_block_offset()), (0, 0));
    assert_eq!((Stdout.get_block_id(), Stdout.get_block_offset()), (0, 0));
    assert_eq!(Stdin::accept(0), None);
    assert_eq!(Stdin::accept(97), Some(b'a'));
    assert_eq!(Stdin::accept(0x141), Some(0x41));
}

#[test]
fn file_descriptor_forwards_to_its_kind() {
    let file = OSInode::new(false, true, 9, 1, 3, 64);
    assert_eq!(file.offset, 0);
    let descriptor = FileDescriptor::Inode(file);
    assert!(!descriptor.readable());
    assert!(descriptor.writable());
    assert_eq!(descriptor.get_ino(), 9);
    assert_eq!(descriptor.get_mode().bits, MODE_DIR);
    assert_eq!(descriptor.get_block_id(), 3);
    assert_eq!(descriptor.get_block_offset(), 64);
    assert!(FileDescriptor::Stdin.readable());
    assert!(FileDescriptor::Stdout.writable());
    assert_eq!(FileDescriptor::Stdout.get_ino(), 0);
}

#[test]
fn new_process_has_the_console_open() {
    let kernel = running_kernel();
    assert_eq!(sys_read(&kernel, 0), Some(FileDescriptor::Stdin));
    assert_eq!(sys_write(&kernel, 1), Some(FileDescriptor::Stdout));
    assert_eq!(sys_write(&kernel, 2), Some(FileDescriptor::Stdout));
    assert_eq!(sys_write(&kernel, 3), None);
    assert_eq!(sys_read(&kernel, usize::MAX), None);
    let idle = Kernel::new();
    assert_eq!(sys_read(&idle, 0), None);
    assert_eq!(sys_write(&idle, 1), None);
}

#[test]
fn open_takes_the_lowest_free_descriptor() {
    let mut kernel = running_kernel();
    assert_eq!(sys_open(&mut kernel, None), -1);
    assert_eq!(sys_open(&mut kernel, Some(inode(5, 2))), 3);
    assert_eq!(sys_open(&mut kernel, Some(inode(6, 2))), 4);
    assert_eq!(sys_read(&kernel, 3), Some(FileDescriptor::Inode(inode(5, 2))));
    assert_eq!(sys_close(&mut kernel, 3), 0);
    assert_eq!(sys_close(&mut kernel, 0), 0);
    assert_eq!(sys_read(&kernel, 3), None);
    // closed twice, or never open
    assert_eq!(sys_close(&mut kernel, 3), -1);
    assert_eq!(sys_close(&mut kernel, 5), -1);
    assert_eq!(sys_open(&mut kernel, Some(inode(7, 2))), 0);
    assert_eq!(sys_open(&mut kernel, Some(inode(8, 2))), 3);
    assert_eq!(sys_open(&mut kernel, Some(inode(9, 2))), 5);
    assert_eq!(kernel.processes[0].fd_table.len(), 6);
    let mut idle = Kernel::new();
    assert_eq!(sys_open(&mut idle, Some(inode(1, 2))), -1);
    assert_eq!(sys_close(&mut idle, 0), -1);
}

#[test]
fn reading_moves_the_position() {
    let mut kernel = running_kernel();
    assert_eq!(sys_open(&mut kernel, Some(inode(5, 2))), 3);
    assert!(advance_file(&mut kernel, 3, 100));
    assert!(advance_file(&mut kernel, 3, 28));
    let moved = OSInode { offset: 128, ..inode(5, 2) };
    assert_eq!(sys_read(&kernel, 3), Some(FileDescriptor::Inode(moved)));
    // the console has no position; a closed file cannot move
    assert!(advance_file(&mut kernel, 1, 10));
    assert_eq!(sys_write(&kernel, 1), Some(FileDescriptor::Stdout));
    assert!(!advance_file(&mut kernel, 4, 1));
    assert!(!advance_file(&mut kernel, 3, usize::MAX));
    assert_eq!(sys_read(&kernel, 3), Some(FileDescriptor::Inode(moved)));
    assert!(!advance_file(&mut Kernel::new(), 0, 1));
}

#[test]
fn fstat_reports_inode_and_links() {
    let mut kernel = running_kernel();
    assert_eq!(sys_open(&mut kernel, Some(inode(12, 2))), 3);
    assert_eq!(sys_open(&mut kernel, Some(inode(13, 1))), 4);
    let stat = sys_fstat(&kernel, 3, 2).unwrap();
    assert_eq!((stat.dev, stat.ino, stat.mode.bits, stat.nlink), (0, 12, MODE_FILE, 2));
    assert_eq!(stat.pad, [0u64; 7]);
    let stat = sys_fstat(&kernel, 4, 1).unwrap();
    assert_eq!((stat.ino, stat.mode.bits, stat.nlink), (13, MODE_DIR, 1));
    let stat = sys_fstat(&kernel, 1, 0).unwrap();
    assert_eq!((stat.ino, stat.mode.bits, stat.nlink), (0, MODE_NULL, 0));
    assert!(sys_fstat(&kernel, 9, 1).is_none());
}

#[test]
fn mmap_request_is_checked() {
    assert_eq!(
        sys_mmap(0x1000_0000, 4096, 3),
        Some(MapRequest { start: 0x1000_0000, end: 0x1000_1000, permission: 22 })
    );
    assert_eq!(sys_mmap(0, 10, 1).map(|r| r.permission), Some(18));
    assert_eq!(sys_mmap(0, 10, 7).map(|r| r.permission), Some(30));
    assert_eq!(sys_mmap(4096, 0, 4).map(|r| (r.start, r.end)), Some((4096, 4096)));
    // not at the start of a page
    assert_eq!(sys_mmap(0x1000_0001, 4096, 3), None);
    // no access, or bits that mean nothing
    assert_eq!(sys_mmap(0x1000_0000, 4096, 0), None);
    assert_eq!(sys_mmap(0x1000_0000, 4096, 8), None);
    assert_eq!(sys_mmap(0x1000_0000, 4096, 11), None);
    // past the end of the address space
    assert_eq!(sys_mmap(usize::MAX - 4095, 4097, 3), None);
    assert_eq!(sys_munmap(8192, 4096), Some((8192, 12288)));
    assert_eq!(sys_munmap(usize::MAX, 1), None);
}

#[test]
fn task_info_counts_calls_and_time() {
    let mut kernel = running_kernel();
    assert!(kernel.update_current_syscall_times(64));
    assert!(kernel.update_current_syscall_times(64));
    assert!(kernel.update_current_syscall_times(169));
    let info = sys_task_info(&kernel, 7_500_000).unwrap();
    assert_eq!(info.status, TaskStatus::Running);
    assert_eq!(info.time, 500);
    assert_eq!(info.syscall_times.len(), 500);
    assert_eq!(info.syscall_times[64], 2);
    assert_eq!(info.syscall_times[169], 1);
    assert_eq!(info.syscall_times.iter().map(|&n| n as usize).sum::<usize>(), 3);
    // the clock of the seconds wraps at 16 bits
    let info = sys_task_info(&kernel, 65_536_000_000).unwrap();
    assert_eq!(info.time, 0usize.wrapping_sub(7_000));
    assert!(sys_task_info(&Kernel::new(), 0).is_none());
}
