//! The verified core of the terminal window manager: state bookkeeping,
//! helper-session events, shell diagnostics, the OSC 9;4 progress filter,
//! the pseudo-terminal host's decisions and the crash dialog's texts.
pub mod text;
pub mod osc_progress;
pub mod diagnostics;
pub mod models;
pub mod session;
pub mod crash_dialog;
pub mod crash_reporting;
pub mod pty_host;
pub mod windows_keyboard_guard;
