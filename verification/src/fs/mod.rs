//! What the core knows of files: the kinds of open file, their
//! permissions, and the table of open files of a process. Reading and
//! writing are the caller's business.
use vstd::prelude::*;

pub mod flags;
pub mod inode;
pub mod stdio;

verus! {

use crate::fs::flags::StatMode;

/// What every open file can tell about itself.
pub trait File {
    /// Whether the file can be read.
    fn readable(&self) -> bool;

    /// Whether the file can be written.
    fn writable(&self) -> bool;

    /// The number of the file's inode.
    fn get_ino(&self) -> u32;

    /// Whether the file is a directory, a regular file or neither.
    fn get_mode(&self) -> StatMode;

    /// The block that holds the file's inode.
    fn get_block_id(&self) -> u32;

    /// Where in its block the file's inode lies.
    fn get_block_offset(&self) -> usize;
}

/// The status of a file.
#[derive(Debug)]
pub struct Stat {
    /// The device that holds the file.
    pub dev: u64,
    /// The number of the file's inode.
    pub ino: u64,
    /// Whether the file is a directory, a regular file or neither.
    pub mode: StatMode,
    /// The number of hard links to the file.
    pub nlink: u32,
    /// Unused.
    pub pad: [u64; 7],
}

} // verus!
