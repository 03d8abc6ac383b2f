//! The terminal control sequences that the picker writes.
//!
//! Each sequence is produced by `termion`. The functions here are not verified:
//! their contracts record, character for character, what `termion` prints for
//! the value in question, and the rest of the library is proved against them.

use vstd::prelude::*;
use crate::text::decimal_digits;

verus! {

/// The control sequence introducer, `ESC [`.
pub open spec fn csi() -> Seq<char> {
    seq!['\u{1b}', '[']
}

/// Hides the cursor: `ESC [ ? 2 5 l`.
pub open spec fn hide_cursor_text() -> Seq<char> {
    csi() + seq!['?', '2', '5', 'l']
}

/// Shows the cursor: `ESC [ ? 2 5 h`.
pub open spec fn show_cursor_text() -> Seq<char> {
    csi() + seq!['?', '2', '5', 'h']
}

/// Moves the cursor to column `col` of row `row`, both counted from one:
/// `ESC [ row ; col H`, the numbers in decimal.
pub open spec fn goto_text(col: u16, row: u16) -> Seq<char> {
    csi() + decimal_digits(row as nat) + seq![';'] + decimal_digits(col as nat) + seq!['H']
}

/// Resets every text attribute: `ESC [ m`.
pub open spec fn reset_style_text() -> Seq<char> {
    csi() + seq!['m']
}

/// Bold text: `ESC [ 1 m`.
pub open spec fn bold_text() -> Seq<char> {
    csi() + seq!['1', 'm']
}

/// High-intensity black foreground: `ESC [ 3 8 ; 5 ; 8 m`.
pub open spec fn light_black_foreground_text() -> Seq<char> {
    csi() + seq!['3', '8', ';', '5', ';', '8', 'm']
}

/// Black background: `ESC [ 4 8 ; 5 ; 0 m`.
pub open spec fn black_background_text() -> Seq<char> {
    csi() + seq!['4', '8', ';', '5', ';', '0', 'm']
}

/// Clears the whole screen: `ESC [ 2 J`.
pub open spec fn clear_all_text() -> Seq<char> {
    csi() + seq!['2', 'J']
}

/// Clears the line the cursor is on: `ESC [ 2 K`.
pub open spec fn clear_line_text() -> Seq<char> {
    csi() + seq!['2', 'K']
}

/// Clears from the cursor to the end of the screen: `ESC [ J`.
pub open spec fn clear_after_cursor_text() -> Seq<char> {
    csi() + seq!['J']
}

/// What `termion::cursor::Hide` prints. Trusted: `termion` defines it as the
/// fixed sequence `ESC [ ? 2 5 l`.
#[verifier::external_body]
pub(crate) fn hide_cursor() -> (s: String)
    ensures
        s@ == hide_cursor_text(),
{
    format!("{}", termion::cursor::Hide)
}

/// What `termion::cursor::Show` prints. Trusted: `termion` defines it as the
/// fixed sequence `ESC [ ? 2 5 h`.
#[verifier::external_body]
pub(crate) fn show_cursor() -> (s: String)
    ensures
        s@ == show_cursor_text(),
{
    format!("{}", termion::cursor::Show)
}

/// What `termion::cursor::Goto(col, row)` prints. Trusted: `termion` writes
/// `ESC [`, the row, `;`, the column and `H`, the two numbers as `u16` prints
/// them, that is in decimal. In a debug build `termion` refuses the position
/// (0, 0), so that position is left out.
#[verifier::external_body]
pub(crate) fn goto(col: u16, row: u16) -> (s: String)
    requires
        col != 0 || row != 0,
    ensures
        s@ == goto_text(col, row),
{
    format!("{}", termion::cursor::Goto(col, row))
}

/// What `termion::style::Reset` prints. Trusted: `termion` defines it as the
/// fixed sequence `ESC [ m`.
#[verifier::external_body]
pub(crate) fn reset_style() -> (s: String)
    ensures
        s@ == reset_style_text(),
{
    format!("{}", termion::style::Reset)
}

/// What `termion::style::Bold` prints. Trusted: `termion` defines it as the
/// fixed sequence `ESC [ 1 m`.
#[verifier::external_body]
pub(crate) fn bold() -> (s: String)
    ensures
        s@ == bold_text(),
{
    format!("{}", termion::style::Bold)
}

/// What `termion::color::Fg(termion::color::LightBlack)` prints. Trusted:
/// `termion` writes the foreground sequence of colour 8, `ESC [ 3 8 ; 5 ; 8 m`.
#[verifier::external_body]
pub(crate) fn light_black_foreground() -> (s: String)
    ensures
        s@ == light_black_foreground_text(),
{
    format!("{}", termion::color::Fg(termion::color::LightBlack))
}

/// What `termion::color::Bg(termion::color::Black)` prints. Trusted: `termion`
/// writes the background sequence of colour 0, `ESC [ 4 8 ; 5 ; 0 m`.
#[verifier::external_body]
pub(crate) fn black_background() -> (s: String)
    ensures
        s@ == black_background_text(),
{
    format!("{}", termion::color::Bg(termion::color::Black))
}

/// What `termion::clear::All` prints. Trusted: `termion` defines it as the
/// fixed sequence `ESC [ 2 J`.
#[verifier::external_body]
pub(crate) fn clear_all() -> (s: String)
    ensures
        s@ == clear_all_text(),
{
    format!("{}", termion::clear::All)
}

/// What `termion::clear::CurrentLine` prints. Trusted: `termion` defines it as
/// the fixed sequence `ESC [ 2 K`.
#[verifier::external_body]
pub(crate) fn clear_line() -> (s: String)
    ensures
        s@ == clear_line_text(),
{
    format!("{}", termion::clear::CurrentLine)
}

/// What `termion::clear::AfterCursor` prints. Trusted: `termion` defines it as
/// the fixed sequence `ESC [ J`.
#[verifier::external_body]
pub(crate) fn clear_after_cursor() -> (s: String)
    ensures
        s@ == clear_after_cursor_text(),
{
    format!("{}", termion::clear::AfterCursor)
}

} // verus!
