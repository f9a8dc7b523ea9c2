//! The syscalls on a process's table of open files. The core keeps the
//! table; the caller reads and writes the files.
use crate::fs::inode::{FileDescriptor, OSInode};
use crate::fs::{File, Stat};
use crate::task::kernel::{lemma_sync_step, Kernel};
use crate::task::process::ProcessView;
use crate::table::{lowest_free, occupancy};
use vstd::prelude::*;

verus! {

/// The open file behind descriptor `fd` of the running unit's process.
pub open spec fn open_file(kernel: &Kernel, fd: usize) -> Option<FileDescriptor> {
    if kernel.running().is_some() && fd < kernel.current_process().files.len() {
        kernel.current_process().files[fd as int]
    } else {
        None
    }
}

/// `after` is `kernel` with the table of open files of the running unit's
/// process replaced by `files`.
pub open spec fn files_became(
    kernel: &Kernel,
    after: &Kernel,
    files: Seq<Option<FileDescriptor>>,
) -> bool {
    &&& kernel.same_schedule(after)
    &&& kernel.process_became(
        after,
        kernel.current_pid(),
        ProcessView { files, ..kernel.current_process() },
    )
}

/// Looks up descriptor `fd` of the running unit's process.
fn lookup(kernel: &Kernel, fd: usize) -> (file: Option<FileDescriptor>)
    requires
        kernel.wf(),
    ensures
        file == open_file(kernel, fd),
{
    match kernel.current_thread() {
        Some((cur, pid, tid)) => {
            if fd < kernel.processes[pid].fd_table.len() {
                kernel.processes[pid].fd_table[fd]
            } else {
                None
            }
        },
        None => None,
    }
}

/// The file that a write to descriptor `fd` goes to, for the caller to
/// write to; nothing if the running unit's process has no such open file,
/// in which case the write returns -1.
pub fn sys_write(kernel: &Kernel, fd: usize) -> (file: Option<FileDescriptor>)
    requires
        kernel.wf(),
    ensures
        file == open_file(kernel, fd),
{
    lookup(kernel, fd)
}

/// The file that a read from descriptor `fd` comes from, for the caller to
/// read from; nothing if the running unit's process has no such open file,
/// in which case the read returns -1.
pub fn sys_read(kernel: &Kernel, fd: usize) -> (file: Option<FileDescriptor>)
    requires
        kernel.wf(),
    ensures
        file == open_file(kernel, fd),
{
    lookup(kernel, fd)
}

/// Enters `inode`, the file that the caller has opened in the file system,
/// into the table of open files of the running unit's process, in the
/// lowest free slot, and returns that slot as the file descriptor. Returns
/// -1, with nothing changed, if the file could not be opened (`inode` is
/// empty), with an idle processor, or if the descriptor would not fit the
/// result.
pub fn sys_open(kernel: &mut Kernel, inode: Option<OSInode>) -> (fd: isize)
    requires
        old(kernel).wf(),
    ensures
        final(kernel).wf(),
        ({
            let files = old(kernel).current_process().files;
            let slot = lowest_free(occupancy(files));
            if inode.is_none() || old(kernel).running().is_none() || slot > isize::MAX {
                fd == -1 && old(kernel).unchanged(final(kernel))
            } else {
                let entry = Some(FileDescriptor::Inode(inode.unwrap()));
                &&& fd == slot
                &&& files_became(
                    old(kernel),
                    final(kernel),
                    if slot < files.len() {
                        files.update(slot, entry)
                    } else {
                        files.push(entry)
                    },
                )
            }
        }),
{
    let file: OSInode = match inode {
        Some(file) => file,
        None => {
            return -1;
        },
    };
    let (cur, pid, tid) = match kernel.current_thread() {
        Some(found) => found,
        None => {
            return -1;
        },
    };
    let slot: usize = crate::table::find_free(&kernel.processes[pid].fd_table);
    if slot > isize::MAX as usize {
        return -1;
    }
    proof {
        crate::table::lemma_lowest_free(occupancy(kernel.processes[pid as int].fd_table@));
        assert(kernel.process_ok(pid as int));
    }
    if slot < kernel.processes[pid].fd_table.len() {
        kernel.processes[pid].fd_table[slot] = Some(FileDescriptor::Inode(file));
    } else {
        kernel.processes[pid].fd_table.push(Some(FileDescriptor::Inode(file)));
    }
    proof {
        lemma_sync_step(
            old(kernel),
            kernel,
            pid as int,
            kernel.processes[pid as int]@,
            None,
            None,
        );
    }
    slot as isize
}

/// Closes descriptor `fd` of the running unit's process: its slot is free
/// for the next file. Returns 0; or -1, with nothing changed, if the
/// process has no such open file, and with an idle processor.
pub fn sys_close(kernel: &mut Kernel, fd: usize) -> (code: isize)
    requires
        old(kernel).wf(),
    ensures
        final(kernel).wf(),
        code == (if open_file(old(kernel), fd).is_some() {
            0isize
        } else {
            -1isize
        }),
        code == -1 ==> old(kernel).unchanged(final(kernel)),
        code == 0 ==> files_became(
            old(kernel),
            final(kernel),
            old(kernel).current_process().files.update(fd as int, None),
        ),
{
    let (cur, pid, tid) = match kernel.current_thread() {
        Some(found) => found,
        None => {
            return -1;
        },
    };
    if fd >= kernel.processes[pid].fd_table.len() {
        return -1;
    }
    if kernel.processes[pid].fd_table[fd].is_none() {
        return -1;
    }
    proof {
        assert(kernel.process_ok(pid as int));
    }
    kernel.processes[pid].fd_table[fd] = None;
    proof {
        lemma_sync_step(
            old(kernel),
            kernel,
            pid as int,
            kernel.processes[pid as int]@,
            None,
            None,
        );
    }
    0
}

/// The table of open files after the file behind descriptor `fd` was read
/// or written by `by` bytes: the position of a file of the file system has
/// moved on by as much; the console has no position.
pub open spec fn files_advanced(
    files: Seq<Option<FileDescriptor>>,
    fd: usize,
    by: usize,
) -> Seq<Option<FileDescriptor>> {
    match files[fd as int] {
        Some(FileDescriptor::Inode(file)) => files.update(
            fd as int,
            Some(FileDescriptor::Inode(OSInode { offset: (file.offset + by) as usize, ..file })),
        ),
        _ => files,
    }
}

/// Whether the position of the file behind descriptor `fd` can move on by
/// `by` bytes: the file is open, and the new position is one that a
/// position can take.
pub open spec fn can_advance(kernel: &Kernel, fd: usize, by: usize) -> bool {
    match open_file(kernel, fd) {
        Some(FileDescriptor::Inode(file)) => file.offset + by <= usize::MAX,
        Some(_) => true,
        None => false,
    }
}

/// Records that the caller has read or written `by` bytes of the file
/// behind descriptor `fd` of the running unit's process: the position of
/// the file moves on. Returns whether it did; if not, nothing has changed.
pub fn advance_file(kernel: &mut Kernel, fd: usize, by: usize) -> (moved: bool)
    requires
        old(kernel).wf(),
    ensures
        final(kernel).wf(),
        moved == can_advance(old(kernel), fd, by),
        !moved ==> old(kernel).unchanged(final(kernel)),
        moved ==> files_became(
            old(kernel),
            final(kernel),
            files_advanced(old(kernel).current_process().files, fd, by),
        ),
{
    let (cur, pid, tid) = match kernel.current_thread() {
        Some(found) => found,
        None => {
            return false;
        },
    };
    if fd >= kernel.processes[pid].fd_table.len() {
        return false;
    }
    proof {
        assert(kernel.process_ok(pid as int));
    }
    match kernel.processes[pid].fd_table[fd] {
        Some(FileDescriptor::Inode(file)) => {
            match file.offset.checked_add(by) {
                Some(offset) => {
                    kernel.processes[pid].fd_table[fd] = Some(
                        FileDescriptor::Inode(OSInode { offset, ..file }),
                    );
                },
                None => {
                    return false;
                },
            }
        },
        Some(_) => {},
        None => {
            return false;
        },
    }
    proof {
        assert(kernel.processes[pid as int]@.files =~= files_advanced(
            old(kernel).processes[pid as int]@.files,
            fd,
            by,
        ));
        lemma_sync_step(
            old(kernel),
            kernel,
            pid as int,
            kernel.processes[pid as int]@,
            None,
            None,
        );
    }
    true
}

/// The status of the file behind descriptor `fd` of the running unit's
/// process, where `nlink` is the number of hard links that the caller has
/// counted in the file system; nothing if the process has no such open
/// file, in which case the call returns -1.
pub fn sys_fstat(kernel: &Kernel, fd: usize, nlink: u32) -> (stat: Option<Stat>)
    requires
        kernel.wf(),
    ensures
        stat.is_some() == open_file(kernel, fd).is_some(),
        stat.is_some() ==> {
            let file = open_file(kernel, fd).unwrap();
            let stat = stat.unwrap();
            &&& stat.dev == 0
            &&& stat.ino == file.ino()
            &&& stat.mode.bits == file.mode_bits()
            &&& stat.nlink == nlink
            &&& forall|i: int| 0 <= i < 7 ==> stat.pad[i] == 0
        },
{
    match lookup(kernel, fd) {
        Some(file) => {
            let ino: u32 = file.get_ino();
            Some(
                Stat {
                    dev: 0,
                    ino: ino as u64,
                    mode: file.get_mode(),
                    nlink,
                    pad: [0, 0, 0, 0, 0, 0, 0],
                },
            )
        },
        None => None,
    }
}

} // verus!
