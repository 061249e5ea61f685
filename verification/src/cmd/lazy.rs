//! Functions which return a `Command` to do the requested action.

use crate::cmd::{Command, CommandView};
use vstd::prelude::*;

verus! {

/// Closes the currently focused window.
pub fn close_focused_window() -> (command: Command)
    ensures
        command@ == CommandView::CloseFocusedWindow,
{
    Command::CloseFocusedWindow
}

/// Moves the focus to the next window in the current group's stack.
pub fn focus_next() -> (command: Command)
    ensures
        command@ == CommandView::FocusNext,
{
    Command::FocusNext
}

/// Moves the focus to the previous window in the current group's stack.
pub fn focus_previous() -> (command: Command)
    ensures
        command@ == CommandView::FocusPrevious,
{
    Command::FocusPrevious
}

/// Shuffles the focused window to the next position in the current group's
/// stack.
pub fn shuffle_next() -> (command: Command)
    ensures
        command@ == CommandView::ShuffleNext,
{
    Command::ShuffleNext
}

/// Shuffles the focused window to the previous position in the current
/// group's stack.
pub fn shuffle_previous() -> (command: Command)
    ensures
        command@ == CommandView::ShufflePrevious,
{
    Command::ShufflePrevious
}

/// Cycles to the next layout of the current group.
pub fn layout_next() -> (command: Command)
    ensures
        command@ == CommandView::LayoutNext,
{
    Command::LayoutNext
}

/// Spawns the specified program.
///
/// The returned `Command` asks for the program to be started each time it is
/// run.
pub fn spawn(program: &str, args: Vec<String>) -> (command: Command)
    ensures
        command@ == (CommandView::Spawn {
            program: program@,
            args: args@.map_values(|arg: String| arg@),
        }),
{
    Command::Spawn { program: program.to_owned(), args }
}

/// Switches to the group specified by name.
pub fn switch_group(name: &str) -> (command: Command)
    ensures
        command@ == CommandView::SwitchGroup(name@),
{
    Command::SwitchGroup(name.to_owned())
}

/// Moves the focused window on the active group to another group.
pub fn move_window_to_group(name: &str) -> (command: Command)
    ensures
        command@ == CommandView::MoveWindowToGroup(name@),
{
    Command::MoveWindowToGroup(name.to_owned())
}

} // verus!
