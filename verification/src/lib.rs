//! Solfege: a minimal init system built around a verified service
//! supervision engine.
//!
//! The library holds the logic of the system: the service lifecycle
//! state machine and its manager, the fstab grammar, and the path and
//! identity computations of the boot sequence.  The embedding runtime
//! performs the operating-system calls (mounting, spawning, signalling,
//! reaping) and feeds their outcomes into the verified core.

pub mod fstab;
pub mod module;
pub mod service;
pub mod uname;
pub mod util;
