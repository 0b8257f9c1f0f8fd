//! The pseudo-console: its child process and the worker that serves it.
pub mod buffer_pool;
pub mod cmdline;
pub mod conpty;
pub mod env;
pub mod types;
pub mod worker;
pub mod worker_loop;
pub mod worker_rules;
