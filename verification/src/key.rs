//! Key presses, and the glyph that stands for each in the help legend.

use vstd::prelude::*;
use vstd::string::*;
use crate::text::{decimal_digits, push_decimal};

verus! {

/// A key press as the terminal reports it.
#[derive(Debug, Clone, Copy, PartialEq, Eq, Hash)]
pub enum Key {
    Backspace,
    Left,
    Right,
    Up,
    Down,
    Home,
    End,
    PageUp,
    PageDown,
    BackTab,
    Delete,
    Insert,
    /// A function key, by its number.
    F(u8),
    /// A character typed without a modifier. Enter is `Char('\n')`.
    Char(char),
    /// A character typed with alt held.
    Alt(char),
    /// A character typed with ctrl held.
    Ctrl(char),
    /// The null byte.
    Null,
    Esc,
}

/// Whether `ch` is a character to type: any character but the control
/// characters, which lie below the space and from delete to U+009F. Enter
/// and tab are control characters.
pub open spec fn is_printable(ch: char) -> bool {
    32 <= ch as u32 && !(127 <= ch as u32 <= 159)
}

/// Whether `ch` is a character to type.
pub fn printable(ch: char) -> (b: bool)
    ensures
        b == is_printable(ch),
{
    let code: u32 = ch as u32;
    32 <= code && !(127 <= code && code <= 159)
}

/// The text `alt + `.
pub open spec fn alt_prefix() -> Seq<char> {
    seq!['a', 'l', 't', ' ', '+', ' ']
}

/// The text `ctrl + `.
pub open spec fn ctrl_prefix() -> Seq<char> {
    seq!['c', 't', 'r', 'l', ' ', '+', ' ']
}

/// How the legend names a key: a symbol for each named key, `F` and the number
/// for a function key, the character itself for a plain one (with symbols for
/// enter and tab), `alt + ` or `ctrl + ` before a modified one, and `?` for
/// whatever has no name.
pub open spec fn key_label(key: Key) -> Seq<char> {
    match key {
        Key::Backspace => seq!['\u{232B}'],
        Key::Left => seq!['\u{2190}'],
        Key::Right => seq!['\u{2192}'],
        Key::Up => seq!['\u{2191}'],
        Key::Down => seq!['\u{2193}'],
        Key::Home => seq!['\u{2912}'],
        Key::End => seq!['\u{2913}'],
        Key::PageUp => seq!['\u{21DE}'],
        Key::PageDown => seq!['\u{21DF}'],
        Key::BackTab => seq!['\u{21E4}'],
        Key::Delete => seq!['\u{2326}'],
        Key::Insert => seq!['\u{2324}'],
        Key::F(n) => seq!['F'] + decimal_digits(n as nat),
        Key::Char(ch) => if ch == '\n' {
            seq!['\u{21B2}']
        } else if ch == '\t' {
            seq!['\u{21E5}']
        } else {
            seq![ch]
        },
        Key::Alt(ch) => alt_prefix().push(ch),
        Key::Ctrl(ch) => ctrl_prefix().push(ch),
        Key::Esc => seq!['\u{238B}'],
        Key::Null => seq!['?'],
    }
}

impl Key {
    /// Whether this is the key that accepts the top match: enter.
    pub open spec fn is_accept(self) -> bool {
        self == Key::Char('\n')
    }

    /// Whether this is the chord that cancels the session: ctrl and `c`.
    pub open spec fn is_interrupt(self) -> bool {
        self == Key::Ctrl('c')
    }

    /// The name of the key in the legend.
    pub fn label(&self) -> (s: String)
        ensures
            s@ == key_label(*self),
    {
        let mut s = String::new();
        match *self {
            Key::Backspace => s.push('\u{232B}'),
            Key::Left => s.push('\u{2190}'),
            Key::Right => s.push('\u{2192}'),
            Key::Up => s.push('\u{2191}'),
            Key::Down => s.push('\u{2193}'),
            Key::Home => s.push('\u{2912}'),
            Key::End => s.push('\u{2913}'),
            Key::PageUp => s.push('\u{21DE}'),
            Key::PageDown => s.push('\u{21DF}'),
            Key::BackTab => s.push('\u{21E4}'),
            Key::Delete => s.push('\u{2326}'),
            Key::Insert => s.push('\u{2324}'),
            Key::F(n) => {
                s.push('F');
                push_decimal(&mut s, n as usize);
            },
            Key::Char(ch) => {
                if ch == '\n' {
                    s.push('\u{21B2}');
                } else if ch == '\t' {
                    s.push('\u{21E5}');
                } else {
                    s.push(ch);
                }
            },
            Key::Alt(ch) => {
                proof {
                    reveal_strlit("alt + ");
                }
                s.append("alt + ");
                s.push(ch);
            },
            Key::Ctrl(ch) => {
                proof {
                    reveal_strlit("ctrl + ");
                }
                s.append("ctrl + ");
                s.push(ch);
            },
            Key::Esc => s.push('\u{238B}'),
            Key::Null => s.push('?'),
        }
        s
    }
}

} // verus!
