//! The exit confirmation dialog: what one frame of input does to it.

use vstd::prelude::*;

verus! {

/// What the exit dialog does in a frame.
#[derive(Debug, Clone, Copy, PartialEq, Eq, Structural)]
pub enum DialogAction {
    /// Leave the game.
    Exit,
    /// Open the dialog and pause the game.
    Open,
    /// Close the dialog and resume the game.
    Close,
    /// Nothing changes.
    Stay,
}

/// The frame's input asks to open the dialog: Escape while it is closed, Q,
/// or the exit button.
pub open spec fn wants_open(is_open: bool, escape: bool, quit_key: bool, open_pressed: bool) -> bool {
    (escape && !is_open) || (!escape && quit_key) || open_pressed
}

/// The frame's input asks to close the dialog: Escape while it is open, or
/// the cancel button.
pub open spec fn wants_close(is_open: bool, escape: bool, cancel_pressed: bool) -> bool {
    (escape && is_open) || cancel_pressed
}

/// What the dialog does given whether it is open and the frame's input:
/// confirming leaves the game; otherwise a closed dialog asked to open opens,
/// an open dialog asked to close closes, and anything else changes nothing.
pub fn exit_dialog_decision(
    is_open: bool,
    escape: bool,
    quit_key: bool,
    open_pressed: bool,
    confirm_pressed: bool,
    cancel_pressed: bool,
) -> (r: DialogAction)
    ensures
        r == if confirm_pressed {
            DialogAction::Exit
        } else if wants_open(is_open, escape, quit_key, open_pressed) && !is_open {
            DialogAction::Open
        } else if wants_close(is_open, escape, cancel_pressed) && is_open {
            DialogAction::Close
        } else {
            DialogAction::Stay
        },
{
    let mut should_open = false;
    let mut should_close = false;
    if escape {
        if is_open {
            should_close = true;
        } else {
            should_open = true;
        }
    } else if quit_key {
        should_open = true;
    }
    if open_pressed {
        should_open = true;
    }
    if cancel_pressed {
        should_close = true;
    }
    if confirm_pressed {
        DialogAction::Exit
    } else if should_open && !is_open {
        DialogAction::Open
    } else if should_close && is_open {
        DialogAction::Close
    } else {
        DialogAction::Stay
    }
}

} // verus!
