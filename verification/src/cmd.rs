//! The commands that a key combination can be bound to.

use vstd::prelude::*;

pub mod lazy;

verus! {

/// What the manager does when a bound key is pressed.
#[derive(Debug)]
pub enum Command {
    CloseFocusedWindow,
    FocusNext,
    FocusPrevious,
    ShuffleNext,
    ShufflePrevious,
    LayoutNext,
    /// Start a program with its arguments.
    Spawn { program: String, args: Vec<String> },
    /// Switch to the group of this name.
    SwitchGroup(String),
    /// Move the focused window to the group of this name.
    MoveWindowToGroup(String),
}

/// A command as plain values.
pub enum CommandView {
    CloseFocusedWindow,
    FocusNext,
    FocusPrevious,
    ShuffleNext,
    ShufflePrevious,
    LayoutNext,
    Spawn { program: Seq<char>, args: Seq<Seq<char>> },
    SwitchGroup(Seq<char>),
    MoveWindowToGroup(Seq<char>),
}

impl View for Command {
    type V = CommandView;

    open spec fn view(&self) -> CommandView {
        match self {
            Command::CloseFocusedWindow => CommandView::CloseFocusedWindow,
            Command::FocusNext => CommandView::FocusNext,
            Command::FocusPrevious => CommandView::FocusPrevious,
            Command::ShuffleNext => CommandView::ShuffleNext,
            Command::ShufflePrevious => CommandView::ShufflePrevious,
            Command::LayoutNext => CommandView::LayoutNext,
            Command::Spawn { program, args } => CommandView::Spawn {
                program: program@,
                args: args@.map_values(|arg: String| arg@),
            },
            Command::SwitchGroup(name) => CommandView::SwitchGroup(name@),
            Command::MoveWindowToGroup(name) => CommandView::MoveWindowToGroup(name@),
        }
    }
}

impl Clone for Command {
    fn clone(&self) -> (copy: Self)
        ensures
            copy@ == self@,
    {
        match self {
            Command::CloseFocusedWindow => Command::CloseFocusedWindow,
            Command::FocusNext => Command::FocusNext,
            Command::FocusPrevious => Command::FocusPrevious,
            Command::ShuffleNext => Command::ShuffleNext,
            Command::ShufflePrevious => Command::ShufflePrevious,
            Command::LayoutNext => Command::LayoutNext,
            Command::Spawn { program, args } => {
                let mut copies: Vec<String> = Vec::new();
                let mut index: usize = 0;
                while index < args.len()
                    invariant
                        index <= args@.len(),
                        copies@ == args@.take(index as int),
                    decreases args@.len() - index,
                {
                    copies.push(args[index].clone());
                    index = index + 1;
                    assert(copies@ =~= args@.take(index as int));
                }
                assert(args@.take(args@.len() as int) =~= args@);
                Command::Spawn { program: program.clone(), args: copies }
            },
            Command::SwitchGroup(name) => Command::SwitchGroup(name.clone()),
            Command::MoveWindowToGroup(name) => Command::MoveWindowToGroup(name.clone()),
        }
    }
}

} // verus!
