//! The console as two files.
use crate::fs::flags::{StatMode, MODE_NULL};
use crate::fs::File;
use vstd::prelude::*;

verus! {

/// The standard input.
pub struct Stdin;

/// The standard output.
pub struct Stdout;

impl File for Stdin {
    fn readable(&self) -> (yes: bool)
        ensures
            yes,
    {
        true
    }

    fn writable(&self) -> (yes: bool)
        ensures
            !yes,
    {
        false
    }

    fn get_ino(&self) -> (ino: u32)
        ensures
            ino == 0,
    {
        0
    }

    fn get_mode(&self) -> (mode: StatMode)
        ensures
            mode.bits == MODE_NULL,
    {
        StatMode { bits: MODE_NULL }
    }

    fn get_block_id(&self) -> (id: u32)
        ensures
            id == 0,
    {
        0
    }

    fn get_block_offset(&self) -> (offset: usize)
        ensures
            offset == 0,
    {
        0
    }
}

impl Stdin {
    /// What a poll of the console means for a read of one byte: 0 says that
    /// no character has come yet, so the reader yields and polls again;
    /// any other value is the character, of which the low eight bits are
    /// stored.
    pub fn accept(polled: usize) -> (byte: Option<u8>)
        ensures
            byte == (if polled == 0 {
                None
            } else {
                Some((polled & 0xff) as u8)
            }),
    {
        if polled == 0 {
            None
        } else {
            Some((polled & 0xff) as u8)
        }
    }
}

impl File for Stdout {
    fn readable(&self) -> (yes: bool)
        ensures
            !yes,
    {
        false
    }

    fn writable(&self) -> (yes: bool)
        ensures
            yes,
    {
        true
    }

    fn get_ino(&self) -> (ino: u32)
        ensures
            ino == 0,
    {
        0
    }

    fn get_mode(&self) -> (mode: StatMode)
        ensures
            mode.bits == MODE_NULL,
    {
        StatMode { bits: MODE_NULL }
    }

    fn get_block_id(&self) -> (id: u32)
        ensures
            id == 0,
    {
        0
    }

    fn get_block_offset(&self) -> (offset: usize)
        ensures
            offset == 0,
    {
        0
    }
}

} // verus!
