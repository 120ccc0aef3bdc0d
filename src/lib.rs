//! Process and thread lifecycle control for a sandboxed multi-process
//! environment: admission of tasks, process and thread identities, thread
//! tables, signal routing, joins on child processes and CPU backoff.

pub mod backoff;
pub mod children;
pub mod control_plane;
pub mod exit;
pub mod foreign;
pub mod ids;
pub mod process;
pub mod routing;
pub mod signal;
pub mod task;
pub mod thread;
