//! What a session writes to the terminal, character for character.
//!
//! The terminal has the help legend on its first row, the prompt on its last,
//! the status and a rule on the row above the prompt, and the surface, which
//! lists the filtered view from its last row upward, in between.

use vstd::prelude::*;
use crate::escape::{
    black_background_text, bold_text, clear_after_cursor_text, clear_all_text, clear_line_text,
    goto_text, hide_cursor_text, light_black_foreground_text, reset_style_text,
    show_cursor_text,
};
use crate::key::{key_label, Key};
use crate::path::text_of;
use crate::text::{decimal_digits, run_of};
use crate::tui::{Surface, WindowView};

verus! {

/// The character that the rule is drawn with, an em dash.
pub const RULE: char = '\u{2014}';

/// The character between a key and what it does, a triangle pointing right.
pub const POINTER: char = '\u{25BA}';

/// What is written when a session begins: the screen is cleared, the style
/// reset and the cursor moved to the origin.
pub open spec fn opening_text() -> Seq<char> {
    clear_all_text() + reset_style_text() + goto_text(1, 1)
}

/// What is written when a session ends, however it ends: the screen is
/// cleared, the style reset, the cursor moved to the origin and shown.
pub open spec fn closing_text() -> Seq<char> {
    clear_all_text() + reset_style_text() + goto_text(1, 1) + show_cursor_text()
}

/// An entry of the help legend: the key, a pointer, and what the key does.
pub open spec fn help_entry(key: Key, description: Seq<char>) -> Seq<char> {
    key_label(key) + seq![' ', POINTER, ' '] + description
}

/// The entries of the legend on one line, four spaces after each.
pub open spec fn legend(help: Seq<Seq<char>>) -> Seq<char>
    decreases help.len(),
{
    if help.len() == 0 {
        Seq::empty()
    } else {
        legend(help.drop_last()) + help.last() + seq![' ', ' ', ' ', ' ']
    }
}

/// The first `count` rows of the surface, each cleared, from the top down.
pub open spec fn cleared_rows(surface: Surface, count: nat) -> Seq<char>
    decreases count,
{
    if count == 0 {
        Seq::empty()
    } else {
        cleared_rows(surface, (count - 1) as nat) + goto_text(
            1,
            (surface.row_start + count - 1) as u16,
        ) + clear_line_text()
    }
}

/// The first `count` paths of `paths`, one on each row, from the last row of
/// the surface upward: the row is cleared, the text of the path written and
/// the style reset.
pub open spec fn listed_rows(surface: Surface, paths: Seq<Seq<u8>>, count: nat) -> Seq<char>
    decreases count,
{
    if count == 0 {
        Seq::empty()
    } else {
        listed_rows(surface, paths, (count - 1) as nat) + goto_text(
            1,
            (surface.row_end - (count - 1)) as u16,
        ) + clear_line_text() + text_of(paths[count - 1]).unwrap() + reset_style_text()
    }
}

impl WindowView {
    /// How many paths of the filtered view are listed: all of them, or as
    /// many as the surface has rows.
    pub open spec fn shown(self) -> nat {
        if self.filtered.len() <= self.surface.capacity() {
            self.filtered.len()
        } else {
            self.surface.capacity()
        }
    }

    /// How long the rule is that starts at column `col`: it ends where the
    /// surface ends, and is empty where `col` lies beyond that.
    pub open spec fn rule_length(self, col: u16) -> nat {
        if col <= self.surface.col_end {
            (self.surface.col_end - col) as nat
        } else {
            0
        }
    }

    /// The prompt on the last row: `> `, the filter text, and whatever
    /// followed it cleared.
    pub open spec fn prompt_text(self) -> Seq<char> {
        reset_style_text() + goto_text(1, self.height) + seq!['>', ' '] + self.input
            + clear_after_cursor_text()
    }

    /// The legend on the first row: the row is filled with spaces on a black
    /// background and the entries are written over them.
    pub open spec fn legend_text(self) -> Seq<char> {
        hide_cursor_text() + black_background_text() + goto_text(1, 1) + run_of(
            ' ',
            self.width as nat,
        ) + goto_text(1, 1) + legend(self.help)
    }

    /// The status on the row below the surface, in bold: the number of paths
    /// in the filtered view and, after a stroke, that same number where they
    /// all fit the surface and the number of rows of the surface where they
    /// do not. The colour of the rule follows.
    pub open spec fn status_text(self) -> Seq<char> {
        hide_cursor_text() + reset_style_text() + goto_text(
            1,
            (self.surface.row_end + 1) as u16,
        ) + bold_text() + seq!['['] + decimal_digits(self.filtered.len()) + seq!['/']
            + decimal_digits(self.shown()) + seq![']'] + light_black_foreground_text()
    }

    /// The rest of the pane, written with the cursor at column `col` behind
    /// the status: the rule, every row of the surface cleared, the paths that
    /// are shown, and the cursor shown again.
    pub open spec fn list_text(self, col: u16) -> Seq<char> {
        run_of(RULE, self.rule_length(col)) + reset_style_text() + cleared_rows(
            self.surface,
            self.surface.capacity(),
        ) + listed_rows(self.surface, self.filtered, self.shown()) + show_cursor_text()
    }
}

} // verus!
