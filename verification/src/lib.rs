//! Host-side logic for running Unikraft unikernels on Hyperlight.
//!
//! A boot is planned by [`sandbox`], from the header of [`initdata`], the sizes of
//! [`memory`] and the mounts of [`mount`]. While the guest runs, its requests go
//! through [`registry`] to the file tools ([`fs_tools`], [`fs_router`],
//! [`fs_sandbox`]) and to the networking tools ([`net_tools`], [`net_policy`]).
//!
//! The library performs no I/O. Where it needs the host, a step says what to ask
//! or to do, and the next call takes the answer.

pub mod base64_text;
pub mod cli;
pub mod fs_error;
pub mod fs_router;
pub mod fs_sandbox;
pub mod fs_tools;
pub mod initdata;
pub mod json;
pub mod memory;
pub mod mount;
pub mod net_policy;
pub mod net_tools;
pub mod path;
pub mod pptx;
pub mod registry;
pub mod sandbox;
pub mod snapshot;
pub mod text;
pub mod vm_handle;
