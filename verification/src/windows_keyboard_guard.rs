//! The keyboard guard of the application's windows: dead-key messages are
//! swallowed before they reach the web view.
use vstd::prelude::*;

verus! {

/// The id under which the guard is installed on a window.
pub const DEAD_KEY_GUARD_SUBCLASS_ID: usize = 0x5457_4d44;

/// The Win32 message `WM_NCDESTROY`, after which the guard is removed.
pub const WM_NCDESTROY: u32 = 0x0082;

/// The Win32 message `WM_DEADCHAR`.
pub const WM_DEADCHAR: u32 = 0x0103;

/// The Win32 message `WM_SYSDEADCHAR`.
pub const WM_SYSDEADCHAR: u32 = 0x0107;

/// Whether `message` reports a dead key, which the guard swallows.
pub fn is_dead_char_message(message: u32) -> (res: bool)
    ensures
        res == (message == WM_DEADCHAR || message == WM_SYSDEADCHAR),
{
    message == WM_DEADCHAR || message == WM_SYSDEADCHAR
}

} // verus!
