//! Building blocks of a charging daemon for MediaTek devices: how charging is cut
//! and resumed, how the thermal delimiter is toggled, what kernel uevents and the
//! battery's nodes say, and how a rotating log is kept. When to cut or to resume
//! is up to the daemon.
//!
//! The crate holds no I/O. Whoever performs a read, a write or a system call
//! hands the outcome in and is told what to do next.

pub mod battery;
pub mod charging;
pub mod clock;
pub mod io_error;
pub mod listener;
pub mod logfmt;
pub mod logger;
pub mod mtk;
pub mod path;
pub mod rotation;
pub mod text;
pub mod thermal;
pub mod uevent;
pub mod utf8;
