use vstd::prelude::*;

use crate::screen::push_char;

verus! {

/// A key press, as far as the terminal acts on it.
#[derive(Clone, Copy, Debug, PartialEq, Eq, Structural)]
pub enum KeyInput {
    Char(char),
    Enter,
    Backspace,
    Tab,
    Esc,
    Other,
}

/// What a key press asks of the terminal: text to send to the shell,
/// quitting, or nothing.
#[derive(Clone, Debug, PartialEq, Eq)]
pub enum KeyAction {
    Send(String),
    Quit,
    Nothing,
}

/// The text that a key sends to the shell, where it sends any: the
/// character itself, a newline for Enter, DEL (0x7f) for Backspace, a tab
/// for Tab.
pub open spec fn key_text(k: KeyInput) -> Option<Seq<char>> {
    match k {
        KeyInput::Char(c) => Some(seq![c]),
        KeyInput::Enter => Some(seq!['\n']),
        KeyInput::Backspace => Some(seq!['\x7f']),
        KeyInput::Tab => Some(seq!['\t']),
        _ => None,
    }
}

/// A string of the one character `c`.
fn one_char(c: char) -> (s: String)
    ensures
        s@ == seq![c],
{
    let mut s = String::new();
    push_char(&mut s, c);
    s
}

/// What the terminal does for the key `k`: Esc quits, a key with text
/// sends that text, any other key does nothing.
pub fn key_action(k: KeyInput) -> (a: KeyAction)
    ensures
        (a is Quit) <==> (k is Esc),
        key_text(k) matches Some(t) ==> (a matches KeyAction::Send(s) && s@ == t),
        key_text(k) is None && !(k is Esc) ==> a is Nothing,
{
    match k {
        KeyInput::Char(c) => KeyAction::Send(one_char(c)),
        KeyInput::Enter => KeyAction::Send(one_char('\n')),
        KeyInput::Backspace => KeyAction::Send(one_char('\x7f')),
        KeyInput::Tab => KeyAction::Send(one_char('\t')),
        KeyInput::Esc => KeyAction::Quit,
        KeyInput::Other => KeyAction::Nothing,
    }
}

} // verus!
