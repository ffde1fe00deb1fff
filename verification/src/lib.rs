//! An in-process publish/subscribe runtime core.
//!
//! A fixed set of named loops exchange typed event records through a central
//! dispatcher.  Active loops run a repeating unit of work and poll their
//! mailbox without blocking; reactive loops sleep until an event arrives,
//! drain their mailbox, and go back to sleep.  All routing, draining and
//! shutdown decisions are made here and carry contracts; the thread and
//! blocking plumbing around them lives outside the library.

pub mod condvar;
pub mod config;
pub mod dispatch;
pub mod event;
pub mod laws;
pub mod looprun;
pub mod mailbox;
pub mod routing;
pub mod runtime;

pub use condvar::PelTestCondvar;
