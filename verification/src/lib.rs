//! Swap which display outputs are active, reliably.
//!
//! The library holds the decisions of two programs, a console command and a daemon
//! in the notification area: what a display configuration says, which outputs a
//! profile means and how they get there, what a command line asks for, which
//! hotkeys work, and what is said about all of it. Windows, the disk, the CEC
//! adapter and the clock are the caller's. Where work alternates with decisions, a
//! function takes the state and what came of the last step, and gives the next
//! state.

pub mod app;
pub mod cec;
pub mod cli;
pub mod cmdline;
pub mod config;
pub mod ddc;
pub mod display;
pub mod error;
pub mod hotkey;
pub mod icon;
pub mod log;
pub mod names;
pub mod seqs;
pub mod text;
pub mod tray;
pub mod winerr;
