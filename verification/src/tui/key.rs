//! The keys that the interface reacts to.

use vstd::prelude::*;

verus! {

/// A key press.
#[derive(Clone, Copy, Debug, PartialEq, Eq, Structural)]
pub enum Key {
    /// A key that types a character.
    Char(char),
    Esc,
    Enter,
    Tab,
    Backspace,
    Delete,
    Up,
    Down,
    Left,
    Right,
    /// Any other key.
    Other,
}

/// What a key asks of the book table.
#[derive(Clone, Copy, Debug, PartialEq, Eq, Structural)]
pub enum Command {
    Quit,
    Down,
    Up,
    JumpToEnd,
    OpenFilter,
    ResetFilter,
    OpenEditor,
    RandomJump,
    Nothing,
}

impl Key {
    /// What the key asks of the book table: `q` and Escape quit, `j` and
    /// Down go down, `k` and Up go up, `G` jumps to the last row, `f`
    /// opens the filter dialog, `F` shows all books again, Enter opens the
    /// editor, and `?` jumps to some row.
    pub open spec fn command_spec(self) -> Command {
        match self {
            Key::Esc => Command::Quit,
            Key::Down => Command::Down,
            Key::Up => Command::Up,
            Key::Enter => Command::OpenEditor,
            Key::Char(c) => if c == 'q' {
                Command::Quit
            } else if c == 'j' {
                Command::Down
            } else if c == 'k' {
                Command::Up
            } else if c == 'G' {
                Command::JumpToEnd
            } else if c == 'f' {
                Command::OpenFilter
            } else if c == 'F' {
                Command::ResetFilter
            } else if c == '?' {
                Command::RandomJump
            } else {
                Command::Nothing
            },
            _ => Command::Nothing,
        }
    }

    /// What the key asks of the book table.
    pub fn command(self) -> (r: Command)
        ensures
            r == self.command_spec(),
    {
        match self {
            Key::Esc => Command::Quit,
            Key::Down => Command::Down,
            Key::Up => Command::Up,
            Key::Enter => Command::OpenEditor,
            Key::Char(c) => if c == 'q' {
                Command::Quit
            } else if c == 'j' {
                Command::Down
            } else if c == 'k' {
                Command::Up
            } else if c == 'G' {
                Command::JumpToEnd
            } else if c == 'f' {
                Command::OpenFilter
            } else if c == 'F' {
                Command::ResetFilter
            } else if c == '?' {
                Command::RandomJump
            } else {
                Command::Nothing
            },
            _ => Command::Nothing,
        }
    }
}

/// Whether the interface goes on after a key press.
#[derive(Clone, Copy, Debug, PartialEq, Eq, Structural)]
pub enum Step {
    Continue,
    Quit,
}

} // verus!
