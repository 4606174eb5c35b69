//! The gates that can swallow synthetic keystrokes before the text is typed.
//!
//! macOS drops the keystrokes silently when the app lacks the Accessibility
//! grant, or while secure event input is on; the events die at the event tap
//! while the typing call still reports success. The shell asks the system
//! about both gates and this module says which one is up, in the words the
//! user reads in the error note.

use vstd::prelude::*;

verus! {

/// What the user reads when the Accessibility grant is missing.
pub const ACCESSIBILITY_BLOCKED: &'static str = "macOS is blocking keystrokes: Ribbit is not allowed in System Settings → \
     Privacy & Security → Accessibility.";

/// What the user reads while secure event input is on.
pub const SECURE_INPUT_BLOCKED: &'static str = "macOS secure input is on — a password field somewhere is blocking keystrokes \
     system-wide. Close or leave that field, then dictate again.";

/// Which gate blocks typing, in the user's words; `None` when both are open.
/// The Accessibility grant is checked first, secure input after it.
pub fn gate_error(trusted: bool, secure_input: bool) -> (r: Option<String>)
    ensures
        !trusted ==> (r matches Some(m) && m@ == ACCESSIBILITY_BLOCKED@),
        trusted && secure_input ==> (r matches Some(m) && m@ == SECURE_INPUT_BLOCKED@),
        trusted && !secure_input ==> r is None,
{
    if !trusted {
        return Some(String::from_str(ACCESSIBILITY_BLOCKED));
    }
    if secure_input {
        return Some(String::from_str(SECURE_INPUT_BLOCKED));
    }
    None
}

} // verus!
