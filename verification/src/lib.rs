//! Verified core of a `/proc`-style process and host-resource monitor.
//!
//! The crate parses the kernel's textual process and host interfaces
//! (status files, the aggregate CPU line, the memory-info table), derives
//! rates and totals from the parsed counters, reconstructs the process
//! forest from flat parent references, and publishes each metric family
//! as an immutable snapshot that concurrent readers obtain whole.
//! All I/O stays with the caller: every function here works on plain
//! bytes and integers and carries a proved contract.

pub mod enumerate;
pub mod hostcpu;
pub mod memory;
pub mod procstat;
pub mod sample;
pub mod snapshot;
pub mod status;
pub mod store;
pub mod tree;
pub mod text;
