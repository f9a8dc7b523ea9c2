//! Flag sets: how a file is to be opened, and what kind of file it is.
use vstd::prelude::*;

verus! {

/// How a file is to be opened: a set of flags, one bit each.
#[derive(Clone, Copy, Debug)]
pub struct OpenFlags {
    /// The flags as bits.
    pub bits: u32,
}

/// The kind of a file, as a set of flags.
#[derive(Clone, Copy, Debug)]
pub struct StatMode {
    /// The flags as bits.
    pub bits: u32,
}

/// For reading only: no bit.
pub const RDONLY: u32 = 0;

/// For writing only.
pub const WRONLY: u32 = 1;

/// For reading and writing.
pub const RDWR: u32 = 2;

/// Create the file if it is missing, and empty it if it is there.
pub const CREATE: u32 = 512;

/// Empty the file.
pub const TRUNC: u32 = 1024;

/// All bits that name an open flag.
pub const OPEN_MASK: u32 = 1539;

/// Neither a directory nor a regular file.
pub const MODE_NULL: u32 = 0;

/// A directory.
pub const MODE_DIR: u32 = 0o040000;

/// A regular file.
pub const MODE_FILE: u32 = 0o100000;

impl OpenFlags {
    /// No flag is set.
    pub open spec fn spec_is_empty(self) -> bool {
        self.bits == 0
    }

    /// Every flag of `other` is set.
    pub open spec fn spec_contains(self, other: u32) -> bool {
        self.bits & other == other
    }

    /// The set with the flags `bits`, if every bit of it names a flag.
    pub fn from_bits(bits: u32) -> (flags: Option<OpenFlags>)
        ensures
            flags == (if bits & !OPEN_MASK == 0 {
                Some(OpenFlags { bits })
            } else {
                None
            }),
    {
        if bits & !OPEN_MASK == 0 {
            Some(OpenFlags { bits })
        } else {
            None
        }
    }

    /// Whether no flag is set.
    pub fn is_empty(&self) -> (empty: bool)
        ensures
            empty == self.spec_is_empty(),
    {
        self.bits == 0
    }

    /// Whether every flag of `other` is set.
    pub fn contains(&self, other: u32) -> (all: bool)
        ensures
            all == self.spec_contains(other),
    {
        self.bits & other == other
    }

    /// Whether a file opened with these flags can be read, and whether it
    /// can be written: read only without any flag, write only with the
    /// write-only flag, and both otherwise.
    pub fn read_write(&self) -> (access: (bool, bool))
        ensures
            access == (if self.spec_is_empty() {
                (true, false)
            } else if self.spec_contains(WRONLY) {
                (false, true)
            } else {
                (true, true)
            }),
    {
        if self.is_empty() {
            (true, false)
        } else if self.contains(WRONLY) {
            (false, true)
        } else {
            (true, true)
        }
    }
}

/// What is to be done in the file system to open a file.
#[derive(Clone, Copy, PartialEq, Eq, Debug, Structural)]
pub enum OpenPlan {
    /// The file is there and is opened as it is.
    Open,
    /// The file is there and is emptied before it is opened.
    Clear,
    /// The file is missing and is created.
    Create,
    /// The file is missing and cannot be opened.
    Fail,
}

/// What is to be done to open a file with `flags` that `exists` or not.
pub open spec fn open_plan_of(flags: OpenFlags, exists: bool) -> OpenPlan {
    if flags.spec_contains(CREATE) {
        if exists {
            OpenPlan::Clear
        } else {
            OpenPlan::Create
        }
    } else if !exists {
        OpenPlan::Fail
    } else if flags.spec_contains(TRUNC) {
        OpenPlan::Clear
    } else {
        OpenPlan::Open
    }
}

/// Decides what is to be done to open a file with `flags` that `exists` or
/// not: with the create flag a file that is there is emptied and a missing
/// one created; without it a missing file cannot be opened, and a file
/// that is there is emptied if the truncate flag asks for it.
pub fn open_plan(flags: OpenFlags, exists: bool) -> (plan: OpenPlan)
    ensures
        plan == open_plan_of(flags, exists),
{
    if flags.contains(CREATE) {
        if exists {
            OpenPlan::Clear
        } else {
            OpenPlan::Create
        }
    } else if !exists {
        OpenPlan::Fail
    } else if flags.contains(TRUNC) {
        OpenPlan::Clear
    } else {
        OpenPlan::Open
    }
}

impl StatMode {
    /// The flag bits for the mode number of an inode: 0 is neither kind, 1
    /// a directory, and every other number a regular file.
    pub open spec fn kind_of(mode: u32) -> u32 {
        if mode == 0 {
            MODE_NULL
        } else if mode == 1 {
            MODE_DIR
        } else {
            MODE_FILE
        }
    }

    /// The kind of file for the mode number of an inode.
    pub fn of_inode(mode: u32) -> (kind: StatMode)
        ensures
            kind.bits == StatMode::kind_of(mode),
    {
        if mode == 0 {
            StatMode { bits: MODE_NULL }
        } else if mode == 1 {
            StatMode { bits: MODE_DIR }
        } else {
            StatMode { bits: MODE_FILE }
        }
    }
}

} // verus!
