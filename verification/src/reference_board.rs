//! The reference board: pinned reference panes laid out in a grid. The
//! grid rendering and drag interaction live outside the library; here is
//! the board's data model and its keyboard command mapping.

use vstd::prelude::*;

use crate::figure_drawing::{KeyInput, NamedKey};

verus! {

/// One node of the reference board: a displayed reference with its pane
/// identity and pin state.
pub struct ReferenceNode {
    pub id: usize,
    pub is_pinned: bool,
    pub path: String,
}

impl Default for ReferenceNode {
    fn default() -> (r: Self)
        ensures
            r.id == 0,
            r.is_pinned == false,
            r.path@.len() == 0,
    {
        ReferenceNode { id: 0, is_pinned: false, path: String::new() }
    }
}

/// What a key press asks the board to do.
#[derive(PartialEq, Eq, Structural, Clone, Copy, Debug)]
pub enum BoardCommand {
    SplitVertical,
    SplitHorizontal,
    CloseFocused,
    FocusAdjacent,
}

/// Maps a key press on the board to a command: `v` and `h` split the
/// focused pane, `w` closes it, the arrow keys move focus.
pub fn keypress(key: KeyInput) -> (r: Option<BoardCommand>)
    ensures
        r == (match key {
            KeyInput::Character(c) => if c == 'v' {
                Some(BoardCommand::SplitVertical)
            } else if c == 'h' {
                Some(BoardCommand::SplitHorizontal)
            } else if c == 'w' {
                Some(BoardCommand::CloseFocused)
            } else {
                None::<BoardCommand>
            },
            KeyInput::Named(k) => if k is ArrowUp || k is ArrowDown || k is ArrowLeft
                || k is ArrowRight {
                Some(BoardCommand::FocusAdjacent)
            } else {
                None::<BoardCommand>
            },
            KeyInput::Unidentified => None::<BoardCommand>,
        }),
{
    match key {
        KeyInput::Character(c) => {
            if c == 'v' {
                Some(BoardCommand::SplitVertical)
            } else if c == 'h' {
                Some(BoardCommand::SplitHorizontal)
            } else if c == 'w' {
                Some(BoardCommand::CloseFocused)
            } else {
                None
            }
        },
        KeyInput::Named(k) => {
            match k {
                NamedKey::ArrowUp => Some(BoardCommand::FocusAdjacent),
                NamedKey::ArrowDown => Some(BoardCommand::FocusAdjacent),
                NamedKey::ArrowLeft => Some(BoardCommand::FocusAdjacent),
                NamedKey::ArrowRight => Some(BoardCommand::FocusAdjacent),
                NamedKey::Other => None,
            }
        },
        KeyInput::Unidentified => None,
    }
}

} // verus!
