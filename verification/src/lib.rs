//! A sandbox that confines a process to a chosen set of schemes, files and
//! directories.
//!
//! Every resource of the host is named `scheme:/path`. A contained process
//! runs in a namespace of its own, in which some schemes are the host's,
//! others are served by a filter that admits only what a policy allows, and
//! all others are missing.
//!
//! This library holds what the sandbox decides, with proofs: the policy
//! record and its validation, the resolver that admits or denies a path, the
//! course of a request under the identity of its caller, the setup and the
//! worker of the supervisor, and the launch of a command. What the host has
//! to do (system calls, the file system, threads) is left to the program
//! around the library, which reports each answer of the host and is told what
//! to do next.
//!
//! - [`contain_config`]: the policy record.
//! - [`validate`]: reconciling a record with the schemes of the host.
//! - [`uri`] and [`text`]: resource names and their characters.
//! - [`filterscheme`]: the admission predicate and the path resolver.
//! - [`request`]: serving one request in the name of its caller.
//! - [`supervisor`]: setting the sandbox up, and the worker that serves it.
//! - [`runner`]: launching a command in a namespace.
//! - [`abi`]: numbers of the kernel interface.
//! - [`error`]: the errors reported to the caller.

pub mod abi;
pub mod contain_config;
pub mod error;
pub mod filterscheme;
pub mod request;
pub mod runner;
pub mod supervisor;
pub mod text;
pub mod uri;
pub mod validate;

pub use contain_config::ContainConfig;
pub use error::{ContainError, ContainResult};
pub use filterscheme::FilterScheme;
pub use runner::CONTAIN_EXEC_FAIL_EXIT;
