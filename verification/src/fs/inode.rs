//! Open files of the file system, and the kinds of open file.
use crate::fs::flags::StatMode;
use crate::fs::stdio::{Stdin, Stdout};
use crate::fs::File;
use vstd::prelude::*;

verus! {

/// An open file of the file system: what the core has to know of its
/// inode, and how far it has been read or written.
#[derive(Clone, Copy, PartialEq, Eq, Debug, Structural)]
pub struct OSInode {
    /// Whether the file was opened for reading.
    pub readable: bool,
    /// Whether the file was opened for writing.
    pub writable: bool,
    /// The number of the inode.
    pub ino: u32,
    /// The mode number of the inode: 0, 1 for a directory, else a file.
    pub mode: u32,
    /// The block that holds the inode.
    pub block_id: u32,
    /// Where in its block the inode lies.
    pub block_offset: usize,
    /// The position of the next read or write.
    pub offset: usize,
}

/// An entry of a process's table of open files.
#[derive(Clone, Copy, PartialEq, Eq, Debug, Structural)]
pub enum FileDescriptor {
    /// The standard input.
    Stdin,
    /// The standard output.
    Stdout,
    /// A file of the file system.
    Inode(OSInode),
}

impl OSInode {
    /// An open file at position 0.
    pub fn new(
        readable: bool,
        writable: bool,
        ino: u32,
        mode: u32,
        block_id: u32,
        block_offset: usize,
    ) -> (file: OSInode)
        ensures
            file == (OSInode { readable, writable, ino, mode, block_id, block_offset, offset: 0 }),
    {
        OSInode { readable, writable, ino, mode, block_id, block_offset, offset: 0 }
    }
}

impl File for OSInode {
    fn readable(&self) -> (yes: bool)
        ensures
            yes == self.readable,
    {
        self.readable
    }

    fn writable(&self) -> (yes: bool)
        ensures
            yes == self.writable,
    {
        self.writable
    }

    fn get_ino(&self) -> (ino: u32)
        ensures
            ino == self.ino,
    {
        self.ino
    }

    fn get_mode(&self) -> (mode: StatMode)
        ensures
            mode.bits == StatMode::kind_of(self.mode),
    {
        StatMode::of_inode(self.mode)
    }

    fn get_block_id(&self) -> (id: u32)
        ensures
            id == self.block_id,
    {
        self.block_id
    }

    fn get_block_offset(&self) -> (offset: usize)
        ensures
            offset == self.block_offset,
    {
        self.block_offset
    }
}

impl FileDescriptor {
    /// The number of the file's inode: 0 for the console.
    pub open spec fn ino(self) -> u32 {
        match self {
            FileDescriptor::Inode(file) => file.ino,
            _ => 0,
        }
    }

    /// The file's kind as flag bits: none for the console.
    pub open spec fn mode_bits(self) -> u32 {
        match self {
            FileDescriptor::Inode(file) => StatMode::kind_of(file.mode),
            _ => 0,
        }
    }
}

impl File for FileDescriptor {
    fn readable(&self) -> (yes: bool)
        ensures
            yes == (match *self {
                FileDescriptor::Stdin => true,
                FileDescriptor::Stdout => false,
                FileDescriptor::Inode(file) => file.readable,
            }),
    {
        match self {
            FileDescriptor::Stdin => Stdin.readable(),
            FileDescriptor::Stdout => Stdout.readable(),
            FileDescriptor::Inode(file) => file.readable(),
        }
    }

    fn writable(&self) -> (yes: bool)
        ensures
            yes == (match *self {
                FileDescriptor::Stdin => false,
                FileDescriptor::Stdout => true,
                FileDescriptor::Inode(file) => file.writable,
            }),
    {
        match self {
            FileDescriptor::Stdin => Stdin.writable(),
            FileDescriptor::Stdout => Stdout.writable(),
            FileDescriptor::Inode(file) => file.writable(),
        }
    }

    fn get_ino(&self) -> (ino: u32)
        ensures
            ino == self.ino(),
    {
        match self {
            FileDescriptor::Stdin => Stdin.get_ino(),
            FileDescriptor::Stdout => Stdout.get_ino(),
            FileDescriptor::Inode(file) => file.get_ino(),
        }
    }

    fn get_mode(&self) -> (mode: StatMode)
        ensures
            mode.bits == self.mode_bits(),
    {
        match self {
            FileDescriptor::Stdin => Stdin.get_mode(),
            FileDescriptor::Stdout => Stdout.get_mode(),
            FileDescriptor::Inode(file) => file.get_mode(),
        }
    }

    fn get_block_id(&self) -> (id: u32)
        ensures
            id == (match *self {
                FileDescriptor::Inode(file) => file.block_id,
                _ => 0,
            }),
    {
        match self {
            FileDescriptor::Stdin => Stdin.get_block_id(),
            FileDescriptor::Stdout => Stdout.get_block_id(),
            FileDescriptor::Inode(file) => file.get_block_id(),
        }
    }

    fn get_block_offset(&self) -> (offset: usize)
        ensures
            offset == (match *self {
                FileDescriptor::Inode(file) => file.block_offset,
                _ => 0,
            }),
    {
        match self {
            FileDescriptor::Stdin => Stdin.get_block_offset(),
            FileDescriptor::Stdout => Stdout.get_block_offset(),
            FileDescriptor::Inode(file) => file.get_block_offset(),
        }
    }
}

} // verus!
