//! The errors the sandbox reports to its caller.

use vstd::prelude::*;

verus! {

/// Makes `syscall::Error` known to Verus: the error of a failed system call
/// as the kernel interface reports it. The type is declared with what it
/// holds, its one public field `errno`, the kernel's error number, so that
/// contracts can say which error a function returns.
#[verifier::external_type_specification]
pub struct ExSyscallError(syscall::Error);

/// Makes `std::io::Error` known to Verus: an error of the standard
/// library's input and output. Nothing is said of what it holds; the library
/// only hands such a value on.
#[verifier::external_type_specification]
#[verifier::external_body]
pub struct ExIoError(std::io::Error);

/// Makes `std::sync::PoisonError` known to Verus: the error of a lock whose
/// holder panicked. Nothing is said of what it holds; the library only takes
/// such a value and drops it.
#[verifier::external_type_specification]
#[verifier::external_body]
#[verifier::reject_recursive_types(T)]
pub struct ExPoisonError<T>(std::sync::PoisonError<T>);

/// The result of an operation of the sandbox.
pub type ContainResult<T> = core::result::Result<T, ContainError>;

/// What can go wrong when a sandbox is set up or a command is run in it.
#[derive(Debug)]
pub enum ContainError {
    /// A configuration could not be read.
    ParseError,
    /// The policy is inconsistent: its root lies in no sandboxed scheme.
    ConfigError,
    /// Input or output failed.
    IoError(std::io::Error),
    /// The kernel refused an operation.
    SyscallError(syscall::Error),
    /// A lock was poisoned.
    PoisonError,
    /// The parts of the sandbox have fallen out of step.
    ThreadError,
}

impl ContainError {
    /// The error for a failure of input or output.
    pub fn io_error(e: std::io::Error) -> (r: Self)
        ensures
            r == ContainError::IoError(e),
    {
        Self::IoError(e)
    }

    /// The error for an operation that the kernel refused.
    pub fn syscall_error(e: syscall::Error) -> (r: Self)
        ensures
            r == ContainError::SyscallError(e),
    {
        Self::SyscallError(e)
    }

    /// The error for a poisoned lock, whatever the lock guarded.
    pub fn poison_error<T>(_e: std::sync::PoisonError<T>) -> (r: Self)
        ensures
            r == ContainError::PoisonError,
    {
        Self::PoisonError
    }
}

} // verus!
