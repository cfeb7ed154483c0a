//! Numbers of the kernel interface that the sandbox reads from requests and
//! writes into replies: the flags of an open, and error numbers.
//!
//! The kernel is that of Redox, and the numbers are the ones that the crate
//! `syscall` gives under the same names. They do not depend on the machine
//! that the sandbox is built on.

use vstd::prelude::*;

verus! {

/// Open for reading only.
pub const O_RDONLY: usize = 0x0001_0000;

/// Open for writing only.
pub const O_WRONLY: usize = 0x0002_0000;

/// Open for reading and writing.
pub const O_RDWR: usize = 0x0003_0000;

/// The bits of the flags that hold the access mode.
pub const O_ACCMODE: usize = 0x0003_0000;

/// Close the descriptor when the process executes another program.
pub const O_CLOEXEC: usize = 0x0100_0000;

/// Create the resource if it does not exist.
pub const O_CREAT: usize = 0x0200_0000;

/// Operation not permitted.
pub const EPERM: i32 = 1;

/// No such file or directory.
pub const ENOENT: i32 = 2;

/// Input or output failed.
pub const EIO: i32 = 5;

/// Invalid argument.
pub const EINVAL: i32 = 22;

/// The flags ask for write access: their access mode is write-only or
/// read-write.
pub open spec fn write_bearing(flags: usize) -> bool {
    flags & O_ACCMODE == O_WRONLY || flags & O_ACCMODE == O_RDWR
}

/// The flags ask that the resource be created.
pub open spec fn requests_creation(flags: usize) -> bool {
    flags & O_CREAT != 0
}

/// The part of the flags of an open that says how to open: everything but
/// the low sixteen bits.
pub open spec fn open_flags_of(flags: usize) -> usize {
    flags & 0xFFFF_0000
}

/// The part of the flags of an open that holds the permission bits of a
/// resource to be created: the low sixteen bits.
pub open spec fn open_mode_of(flags: usize) -> u16 {
    (flags & 0xFFFF) as u16
}

/// Whether the flags ask for write access.
pub fn is_write_bearing(flags: usize) -> (r: bool)
    ensures
        r == write_bearing(flags),
{
    assert((flags & 0x0002_0000 != 0) <==> (flags & 0x0003_0000 == 0x0002_0000 || flags
        & 0x0003_0000 == 0x0003_0000)) by (bit_vector);
    flags & O_WRONLY != 0
}

/// Whether the flags ask that the resource be created.
pub fn is_creation(flags: usize) -> (r: bool)
    ensures
        r == requests_creation(flags),
{
    flags & O_CREAT != 0
}

/// The flags of an open, parted into what the host's open takes: how to
/// open, and the permission bits.
pub fn split_open_flags(flags: usize) -> (r: (usize, u16))
    ensures
        r.0 == open_flags_of(flags),
        r.1 == open_mode_of(flags),
{
    let mode_bits: usize = flags & 0xFFFF;
    assert(mode_bits <= 0xFFFF) by (bit_vector)
        requires
            mode_bits == flags & 0xFFFF,
    ;
    (flags & 0xFFFF_0000, mode_bits as u16)
}

} // verus!
