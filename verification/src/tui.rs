//! The picker session: its state, how a key press changes it, and what it
//! writes to the terminal.

use vstd::prelude::*;
use vstd::string::*;
use crate::error::{Error, ErrorView};
use crate::escape::{
    black_background, bold, clear_after_cursor, clear_all, clear_line, goto, hide_cursor,
    light_black_foreground, reset_style, show_cursor,
};
use crate::key::{is_printable, printable, Key};
use crate::screen::{
    cleared_rows, closing_text, help_entry, legend, listed_rows, opening_text, POINTER, RULE,
};
use crate::path::{lemma_views_push, lemma_views_take, text_of, views, ProjectPath};
use crate::select::{
    is_selection, lemma_filter_is_pick, lemma_pick_all, lemma_pick_contains, lemma_pick_push,
    pick,
};
use crate::text::{chars_of, contains, is_substring, push_decimal, push_run};

verus! {

/// The part of the terminal that lists paths: rows `row_start` to `row_end`
/// and columns `col_start` to `col_end`, all counted from one and inclusive.
#[derive(Debug, Clone, Copy, PartialEq, Eq)]
pub struct Surface {
    pub row_start: u16,
    pub col_start: u16,
    pub row_end: u16,
    pub col_end: u16,
}

impl Surface {
    /// The surface between the given columns and rows.
    pub fn new(col_start: u16, row_start: u16, col_end: u16, row_end: u16) -> (s: Surface)
        ensures
            s == (Surface { row_start, col_start, row_end, col_end }),
    {
        Surface { col_start, row_start, col_end, row_end }
    }

    /// How many rows the surface has, hence how many paths it can list.
    pub open spec fn capacity(self) -> nat {
        if self.row_start <= self.row_end {
            (self.row_end - self.row_start + 1) as nat
        } else {
            0
        }
    }

    /// How many rows the surface has.
    pub fn rows(&self) -> (n: usize)
        ensures
            n == self.capacity(),
    {
        if self.row_start <= self.row_end {
            (self.row_end - self.row_start) as usize + 1
        } else {
            0
        }
    }
}

/// Where a session stands after a key press.
#[derive(Debug)]
pub enum SessionState {
    /// The session goes on.
    Running,
    /// The user accepted this path.
    Selected(ProjectPath),
    /// The user interrupted the session.
    Cancelled,
    /// The input ended.
    EndOfInput,
}

/// A [`SessionState`] with the selected path as its bytes.
pub enum SessionView {
    Running,
    Selected(Seq<u8>),
    Cancelled,
    EndOfInput,
}

impl View for SessionState {
    type V = SessionView;

    open spec fn view(&self) -> SessionView {
        match *self {
            SessionState::Running => SessionView::Running,
            SessionState::Selected(path) => SessionView::Selected(path@),
            SessionState::Cancelled => SessionView::Cancelled,
            SessionState::EndOfInput => SessionView::EndOfInput,
        }
    }
}

/// The path `path` displays as a text that `needle` is part of.
pub open spec fn path_matches(path: Seq<u8>, needle: Seq<char>) -> bool {
    text_of(path) matches Some(text) && is_substring(needle, text)
}

/// The paths of `paths` whose text `needle` is part of, in their order.
pub open spec fn matching(paths: Seq<Seq<u8>>, needle: Seq<char>) -> Seq<Seq<u8>> {
    paths.filter(|path: Seq<u8>| path_matches(path, needle))
}

/// Every path of `paths` has a text.
pub open spec fn all_have_text(paths: Seq<Seq<u8>>) -> bool {
    forall|i: int| 0 <= i < paths.len() ==> (#[trigger] text_of(paths[i])) is Some
}

/// `paths[at]` is the first path without a text.
pub open spec fn first_without_text(paths: Seq<Seq<u8>>, at: int) -> bool {
    &&& 0 <= at < paths.len()
    &&& text_of(paths[at]) is None
    &&& forall|j: int| 0 <= j < at ==> (#[trigger] text_of(paths[j])) is Some
}

/// A session as a mathematical value.
pub struct WindowView {
    /// Where paths are listed.
    pub surface: Surface,
    /// The width of the terminal when the session began.
    pub width: u16,
    /// The height of the terminal when the session began.
    pub height: u16,
    /// The entries of the help legend, oldest first.
    pub help: Seq<Seq<char>>,
    /// The filter text.
    pub input: Seq<char>,
    /// The candidate set.
    pub paths: Seq<Seq<u8>>,
    /// The filtered view.
    pub filtered: Seq<Seq<u8>>,
}

impl WindowView {
    /// What holds of every session: the terminal has a row for the legend and
    /// one for the prompt, the surface lies between them with the row above
    /// the prompt left for the status, and the filtered view is a subsequence
    /// of the candidate set.
    pub open spec fn wf(self) -> bool {
        &&& self.height >= 2
        &&& self.surface == (Surface {
            row_start: 2,
            col_start: 1,
            row_end: (self.height - 2) as u16,
            col_end: self.width,
        })
        &&& is_selection(self.filtered, self.paths)
    }

    /// The session once `ch` is typed.
    pub open spec fn push(self, ch: char) -> WindowView {
        WindowView { input: self.input.push(ch), ..self }
    }

    /// The session once the last character of the filter text, if there is
    /// one, is removed.
    pub open spec fn pop(self) -> WindowView {
        if self.input.len() > 0 {
            WindowView { input: self.input.drop_last(), ..self }
        } else {
            self
        }
    }

    /// The top match: the first path of the filtered view.
    pub open spec fn selected(self) -> Option<Seq<u8>> {
        if self.filtered.len() > 0 {
            Some(self.filtered[0])
        } else {
            None
        }
    }

    /// The session once the filtered view is computed anew from the filter text.
    pub open spec fn refiltered(self) -> WindowView {
        WindowView { filtered: matching(self.paths, self.input), ..self }
    }

    /// The session after `event`: a key press, or `None` for the end of the
    /// input. A printable character is typed, backspace removes one, and
    /// nothing else changes the session.
    pub open spec fn after(self, event: Option<Key>) -> WindowView {
        match event {
            Some(Key::Char(ch)) => if is_printable(ch) {
                self.push(ch)
            } else {
                self
            },
            Some(Key::Backspace) => self.pop(),
            _ => self,
        }
    }

    /// Where the session stands after `event`: at its end when the input
    /// ended, cancelled by the interrupt chord, selected by enter when there is
    /// a top match, and running otherwise.
    pub open spec fn outcome(self, event: Option<Key>) -> SessionView {
        match event {
            None => SessionView::EndOfInput,
            Some(key) => if key.is_interrupt() {
                SessionView::Cancelled
            } else if key.is_accept() {
                match self.selected() {
                    Some(path) => SessionView::Selected(path),
                    None => SessionView::Running,
                }
            } else {
                SessionView::Running
            },
        }
    }

    /// The session after the characters of `text` are typed one by one.
    pub open spec fn typed(self, text: Seq<char>) -> WindowView
        decreases text.len(),
    {
        if text.len() == 0 {
            self
        } else {
            self.typed(text.drop_last()).after(Some(Key::Char(text.last())))
        }
    }
}

/// Typing `text` into a session with an empty filter text makes `text` the
/// filter text, and the filtered view computed from it is the candidate set
/// without the paths whose text `text` is not part of, in the order of the
/// candidate set. Only printable characters can be typed: enter accepts the
/// top match, and the other control characters are ignored.
pub proof fn lemma_typing_filters(session: WindowView, text: Seq<char>)
    requires
        session.input.len() == 0,
        forall|i: int| 0 <= i < text.len() ==> is_printable(#[trigger] text[i]),
    ensures
        session.typed(text) == (WindowView { input: text, ..session }),
        session.typed(text).refiltered().filtered == matching(session.paths, text),
        matching(session.paths, text) == pick(
            session.paths,
            session.paths.map_values(|path: Seq<u8>| path_matches(path, text)),
        ),
    decreases text.len(),
{
    if text.len() == 0 {
        assert(session.input =~= text);
    } else {
        lemma_typing_filters(session, text.drop_last());
        assert(text.drop_last().push(text.last()) =~= text);
    }
    lemma_filter_is_pick(session.paths, |path: Seq<u8>| path_matches(path, text));
}

/// Typing a character and removing it at once leaves the session as it was:
/// the filter text is the same, and so is the filtered view computed from it.
pub proof fn lemma_push_pop(session: WindowView, ch: char)
    ensures
        session.push(ch).pop() == session,
        session.push(ch).pop().refiltered() == session.refiltered(),
        is_printable(ch) ==> session.after(Some(Key::Char(ch))).after(Some(Key::Backspace))
            == session,
{
    assert(session.input.push(ch).drop_last() =~= session.input);
}

/// Enter on an empty filtered view selects nothing: the session goes on as
/// it was.
pub proof fn lemma_accept_nothing(session: WindowView)
    requires
        session.filtered.len() == 0,
    ensures
        session.outcome(Some(Key::Char('\n'))) == SessionView::Running,
        session.after(Some(Key::Char('\n'))) == session,
{
}

/// Enter on a filtered view that is not empty selects its first path.
pub proof fn lemma_accept_top_match(session: WindowView)
    requires
        session.filtered.len() > 0,
    ensures
        session.outcome(Some(Key::Char('\n'))) == SessionView::Selected(session.filtered[0]),
{
}

/// Whatever happens in a session, its candidate set stays as it is and its
/// filtered view stays a subsequence of it; a path that is selected is one
/// of the candidates. A key changes nothing but the filter text, and
/// filtering nothing but the filtered view.
pub proof fn lemma_session_invariant(session: WindowView, event: Option<Key>)
    requires
        session.wf(),
    ensures
        session.after(event).wf(),
        session.after(event) == (WindowView { input: session.after(event).input, ..session }),
        session.refiltered().wf(),
        session.refiltered() == (WindowView {
            filtered: session.refiltered().filtered,
            ..session
        }),
        session.outcome(event) matches SessionView::Selected(path) ==> session.paths.contains(
            path,
        ),
{
    lemma_filter_is_pick(session.paths, |path: Seq<u8>| path_matches(path, session.input));
    if session.filtered.len() > 0 {
        let keep = choose|keep: Seq<bool>|
            keep.len() == session.paths.len() && session.filtered == #[trigger] pick(
                session.paths,
                keep,
            );
        lemma_pick_contains(session.paths, keep, session.filtered[0]);
    }
}

/// The state of one picker session.
pub struct Window {
    path_surface: Surface,
    width: u16,
    height: u16,
    help: Vec<String>,
    input: String,
    paths: Vec<ProjectPath>,
    filtered_paths: Vec<ProjectPath>,
}

impl View for Window {
    type V = WindowView;

    closed spec fn view(&self) -> WindowView {
        WindowView {
            surface: self.path_surface,
            width: self.width,
            height: self.height,
            help: texts(self.help@),
            input: self.input@,
            paths: views(self.paths@),
            filtered: views(self.filtered_paths@),
        }
    }
}

/// A copy of `paths`.
fn copy_paths(paths: &Vec<ProjectPath>) -> (copy: Vec<ProjectPath>)
    ensures
        views(copy@) == views(paths@),
{
    let mut copy: Vec<ProjectPath> = Vec::new();
    let mut i: usize = 0;
    while i < paths.len()
        invariant
            i <= paths.len(),
            views(copy@) == views(paths@.take(i as int)),
        decreases paths.len() - i,
    {
        let path = paths[i].clone();
        proof {
            lemma_views_push(copy@, path);
            lemma_views_take(paths@, i as int);
        }
        copy.push(path);
        i = i + 1;
    }
    copy
}

/// The texts of the entries of the legend.
spec fn texts(help: Seq<String>) -> Seq<Seq<char>> {
    help.map_values(|entry: String| entry@)
}

/// The entries of `help` on one line, four spaces after each.
fn legend_line(help: &Vec<String>) -> (line: String)
    ensures
        line@ == legend(texts(help@)),
{
    let mut line = String::new();
    let mut i: usize = 0;
    while i < help.len()
        invariant
            i <= help.len(),
            line@ == legend(texts(help@.take(i as int))),
        decreases help.len() - i,
    {
        proof {
            reveal_strlit("    ");
            let now = texts(help@.take(i + 1));
            assert(now.drop_last() =~= texts(help@.take(i as int)));
        }
        line.append(help[i].as_str());
        line.append("    ");
        i = i + 1;
    }
    assert(help@.take(help.len() as int) =~= help@);
    line
}

impl Window {
    /// The invariant of the session.
    pub open spec fn inv(&self) -> bool {
        self@.wf()
    }

    /// The candidate set, as the paths themselves.
    pub closed spec fn candidates(&self) -> Seq<ProjectPath> {
        self.paths@
    }

    /// A session over `paths` on a terminal of the given size: nothing typed,
    /// no legend, every candidate in the filtered view.
    pub fn init(width: u16, height: u16, paths: Vec<ProjectPath>) -> (window: Window)
        requires
            height >= 2,
        ensures
            window.inv(),
            window.candidates() == paths@,
            window@ == (WindowView {
                surface: Surface {
                    row_start: 2,
                    col_start: 1,
                    row_end: (height - 2) as u16,
                    col_end: width,
                },
                width,
                height,
                help: Seq::empty(),
                input: Seq::empty(),
                paths: views(paths@),
                filtered: views(paths@),
            }),
    {
        let filtered_paths = copy_paths(&paths);
        let window = Window {
            path_surface: Surface::new(1, 2, width, height - 2),
            width,
            height,
            help: Vec::new(),
            input: String::new(),
            paths,
            filtered_paths,
        };
        proof {
            lemma_pick_all(views(paths@));
            assert(window@.help =~= Seq::empty());
        }
        window
    }

    /// Types `ch`: appends it to the filter text.
    pub fn push(&mut self, ch: char)
        requires
            old(self).inv(),
        ensures
            final(self).inv(),
            final(self).candidates() == old(self).candidates(),
            final(self)@ == old(self)@.push(ch),
    {
        self.input.push(ch);
    }

    /// Removes the last character of the filter text and returns it; `None`,
    /// and no change, where the filter text is empty.
    pub fn pop(&mut self) -> (removed: Option<char>)
        requires
            old(self).inv(),
        ensures
            final(self).inv(),
            final(self).candidates() == old(self).candidates(),
            final(self)@ == old(self)@.pop(),
            removed == if old(self)@.input.len() > 0 {
                Some(old(self)@.input.last())
            } else {
                None
            },
    {
        self.input.pop()
    }

    /// The filter text.
    pub fn get_input(&self) -> (input: &str)
        ensures
            input@ == self@.input,
    {
        self.input.as_str()
    }

    /// The candidate set.
    pub fn paths(&self) -> (paths: &Vec<ProjectPath>)
        ensures
            paths@ == self.candidates(),
            views(paths@) == self@.paths,
    {
        &self.paths
    }

    /// The filtered view.
    pub fn filtered_paths(&self) -> (filtered: &Vec<ProjectPath>)
        ensures
            views(filtered@) == self@.filtered,
    {
        &self.filtered_paths
    }

    /// Where the paths are listed.
    pub fn surface(&self) -> (surface: Surface)
        ensures
            surface == self@.surface,
    {
        self.path_surface
    }

    /// The top match, if the filtered view has one.
    pub fn get_selected(&self) -> (selected: Option<ProjectPath>)
        ensures
            match selected {
                Some(path) => self@.selected() == Some(path@),
                None => self@.selected() is None,
            },
    {
        if self.filtered_paths.len() > 0 {
            Some(self.filtered_paths[0].clone())
        } else {
            None
        }
    }

    /// Computes the filtered view anew: it keeps the candidates for which
    /// `filter` answers `true`, in their order.
    pub fn filter_paths<F: Fn(&ProjectPath) -> bool>(&mut self, filter: F)
        requires
            old(self).inv(),
            forall|i: int|
                0 <= i < old(self).candidates().len() ==> call_requires(
                    filter,
                    (&#[trigger] old(self).candidates()[i],),
                ),
        ensures
            final(self).inv(),
            final(self).candidates() == old(self).candidates(),
            final(self)@ == (WindowView { filtered: final(self)@.filtered, ..old(self)@ }),
            exists|keep: Seq<bool>|
                {
                    &&& keep.len() == old(self).candidates().len()
                    &&& forall|i: int|
                        0 <= i < keep.len() ==> call_ensures(
                            filter,
                            (&old(self).candidates()[i],),
                            #[trigger] keep[i],
                        )
                    &&& final(self)@.filtered == pick(old(self)@.paths, keep)
                },
    {
        let mut kept: Vec<ProjectPath> = Vec::new();
        let ghost mut keep: Seq<bool> = Seq::empty();
        let mut i: usize = 0;
        assert forall|j: int| 0 <= j < self.paths.len() implies call_requires(
            filter,
            (&#[trigger] self.paths@[j],),
        ) by {
            assert(self.candidates()[j] == self.paths@[j]);
        }
        while i < self.paths.len()
            invariant
                i <= self.paths.len(),
                *self == *old(self),
                self.inv(),
                keep.len() == i,
                forall|j: int|
                    0 <= j < self.paths.len() ==> call_requires(
                        filter,
                        (&#[trigger] self.paths@[j],),
                    ),
                forall|j: int|
                    0 <= j < i ==> call_ensures(filter, (&self.paths@[j],), #[trigger] keep[j]),
                views(kept@) == pick(views(self.paths@.take(i as int)), keep),
            decreases self.paths.len() - i,
        {
            let wanted = filter(&self.paths[i]);
            proof {
                lemma_pick_push(
                    views(self.paths@.take(i as int)),
                    keep,
                    self.paths@[i as int]@,
                    wanted,
                );
                lemma_views_take(self.paths@, i as int);
                keep = keep.push(wanted);
            }
            if wanted {
                let path = self.paths[i].clone();
                proof {
                    lemma_views_push(kept@, path);
                }
                kept.push(path);
            }
            i = i + 1;
        }
        assert(self.paths@.take(self.paths.len() as int) =~= self.paths@);
        self.filtered_paths = kept;
    }

    /// Computes the filtered view anew from the filter text: it keeps the
    /// candidates whose text the filter text is part of, in their order.
    /// Fails, and changes nothing, where a candidate has no text; the error
    /// names the first such candidate.
    pub fn filter_by_input(&mut self) -> (r: Result<(), Error>)
        requires
            old(self).inv(),
        ensures
            final(self).inv(),
            final(self).candidates() == old(self).candidates(),
            match r {
                Ok(_) => {
                    &&& all_have_text(old(self)@.paths)
                    &&& final(self)@ == old(self)@.refiltered()
                },
                Err(error) => {
                    &&& final(self)@ == old(self)@
                    &&& exists|at: int|
                        #[trigger] first_without_text(old(self)@.paths, at) && error@
                            == ErrorView::PathUnicodeError(old(self)@.paths[at])
                },
            },
    {
        let needle = chars_of(self.input.as_str());
        let mut kept: Vec<ProjectPath> = Vec::new();
        let mut i: usize = 0;
        while i < self.paths.len()
            invariant
                i <= self.paths.len(),
                *self == *old(self),
                self.inv(),
                needle@ == self.input@,
                forall|j: int| 0 <= j < i ==> (#[trigger] text_of(self.paths@[j]@)) is Some,
                views(kept@) == matching(views(self.paths@.take(i as int)), needle@),
            decreases self.paths.len() - i,
        {
            proof {
                reveal(Seq::filter);
                lemma_views_take(self.paths@, i as int);
            }
            match self.paths[i].to_str() {
                None => {
                    assert(first_without_text(self@.paths, i as int));
                    return Err(Error::PathUnicodeError(self.paths[i].clone()));
                },
                Some(text) => {
                    let hay = chars_of(text);
                    if contains(&hay, &needle) {
                        let path = self.paths[i].clone();
                        proof {
                            lemma_views_push(kept@, path);
                        }
                        kept.push(path);
                    }
                },
            }
            i = i + 1;
        }
        proof {
            assert(self.paths@.take(self.paths.len() as int) =~= self.paths@);
            lemma_filter_is_pick(
                self@.paths,
                |path: Seq<u8>| path_matches(path, self@.input),
            );
        }
        self.filtered_paths = kept;
        Ok(())
    }

    /// Takes one event of the input: a key press, or `None` where the input
    /// has ended. Enter selects the top match where there is one, the
    /// interrupt chord cancels, a printable character is typed, backspace
    /// removes the last one, and every other key is ignored.
    pub fn handle(&mut self, event: Option<Key>) -> (next: SessionState)
        requires
            old(self).inv(),
        ensures
            final(self).inv(),
            final(self).candidates() == old(self).candidates(),
            final(self)@ == old(self)@.after(event),
            next@ == old(self)@.outcome(event),
    {
        match event {
            None => SessionState::EndOfInput,
            Some(Key::Ctrl(ch)) => {
                if ch == 'c' {
                    SessionState::Cancelled
                } else {
                    SessionState::Running
                }
            },
            Some(Key::Char(ch)) => {
                if ch == '\n' {
                    match self.get_selected() {
                        Some(path) => SessionState::Selected(path),
                        None => SessionState::Running,
                    }
                } else {
                    if printable(ch) {
                        self.push(ch);
                    }
                    SessionState::Running
                }
            },
            Some(Key::Backspace) => {
                let _ = self.pop();
                SessionState::Running
            },
            Some(_) => SessionState::Running,
        }
    }

    /// What to write when the session begins.
    pub fn opening() -> (out: String)
        ensures
            out@ == opening_text(),
    {
        let mut out = clear_all();
        out.append(reset_style().as_str());
        out.append(goto(1, 1).as_str());
        out
    }

    /// What to write when the session ends, whatever ended it.
    pub fn closing() -> (out: String)
        ensures
            out@ == closing_text(),
    {
        let mut out = clear_all();
        out.append(reset_style().as_str());
        out.append(goto(1, 1).as_str());
        out.append(show_cursor().as_str());
        out
    }

    /// Adds an entry for `key` to the help legend and returns the legend
    /// line, drawn anew.
    pub fn register_help(&mut self, key: Key, help: &str) -> (out: String)
        requires
            old(self).inv(),
        ensures
            final(self).inv(),
            final(self).candidates() == old(self).candidates(),
            final(self)@ == (WindowView {
                help: old(self)@.help.push(help_entry(key, help@)),
                ..old(self)@
            }),
            out@ == final(self)@.legend_text(),
    {
        let mut entry = key.label();
        entry.push(' ');
        entry.push(POINTER);
        entry.push(' ');
        entry.append(help);
        assert(entry@ =~= help_entry(key, help@));
        proof {
            assert(texts(self.help@.push(entry)) =~= texts(self.help@).push(entry@));
        }
        self.help.push(entry);
        let line = legend_line(&self.help);
        let mut out = hide_cursor();
        out.append(black_background().as_str());
        out.append(goto(1, 1).as_str());
        push_run(&mut out, ' ', self.width as usize);
        out.append(goto(1, 1).as_str());
        out.append(line.as_str());
        out
    }

    /// The prompt line, to be written before the next key is read.
    pub fn before_next_iter(&self) -> (out: String)
        ensures
            out@ == self@.prompt_text(),
    {
        let mut out = reset_style();
        out.append(goto(1, self.height).as_str());
        out.push('>');
        out.push(' ');
        out.append(self.input.as_str());
        out.append(clear_after_cursor().as_str());
        out
    }

    /// The status of the pane. Once it is written, the column of the cursor
    /// is where the rule of [`Window::draw_paths`] begins.
    pub fn draw_status(&self) -> (out: String)
        requires
            self.inv(),
        ensures
            out@ == self@.status_text(),
    {
        let count: usize = self.filtered_paths.len();
        let rows: usize = self.path_surface.rows();
        let total: usize = if count <= rows {
            count
        } else {
            rows
        };
        let mut out = hide_cursor();
        out.append(reset_style().as_str());
        out.append(goto(1, self.path_surface.row_end + 1).as_str());
        out.append(bold().as_str());
        out.push('[');
        push_decimal(&mut out, count);
        out.push('/');
        push_decimal(&mut out, total);
        out.push(']');
        out.append(light_black_foreground().as_str());
        out
    }

    /// The pane below the status, for a cursor that stands at column `col`:
    /// the rule, the cleared surface and the paths that are shown. Fails where
    /// one of the paths to show has no text; the error names the first such
    /// path.
    pub fn draw_paths(&self, col: u16) -> (r: Result<String, Error>)
        ensures
            match r {
                Ok(out) => {
                    &&& all_have_text(self@.filtered.take(self@.shown() as int))
                    &&& out@ == self@.list_text(col)
                },
                Err(error) => exists|at: int|
                    #[trigger] first_without_text(self@.filtered.take(self@.shown() as int), at)
                        && error@ == ErrorView::PathUnicodeError(self@.filtered[at]),
            },
    {
        let surface = self.path_surface;
        let rule: usize = if col <= surface.col_end {
            (surface.col_end - col) as usize
        } else {
            0
        };
        let mut out = String::new();
        push_run(&mut out, RULE, rule);
        out.append(reset_style().as_str());
        let ghost head = out@;
        let rows: usize = surface.rows();
        let mut k: usize = 0;
        while k < rows
            invariant
                k <= rows,
                rows == surface.capacity(),
                out@ == head + cleared_rows(surface, k as nat),
            decreases rows - k,
        {
            let row: u16 = surface.row_start + (k as u16);
            out.append(goto(1, row).as_str());
            out.append(clear_line().as_str());
            k = k + 1;
        }
        let ghost cleared = out@;
        let shown: usize = if self.filtered_paths.len() <= rows {
            self.filtered_paths.len()
        } else {
            rows
        };
        let ghost visible = self@.filtered.take(shown as int);
        k = 0;
        while k < shown
            invariant
                k <= shown,
                shown <= rows,
                shown <= self.filtered_paths.len(),
                shown == self@.shown(),
                rows == surface.capacity(),
                surface == self.path_surface,
                visible == self@.filtered.take(shown as int),
                forall|j: int| 0 <= j < k ==> (#[trigger] text_of(visible[j])) is Some,
                out@ == cleared + listed_rows(surface, self@.filtered, k as nat),
            decreases shown - k,
        {
            let row: u16 = surface.row_end - (k as u16);
            match self.filtered_paths[k].to_str() {
                None => {
                    assert(first_without_text(visible, k as int));
                    return Err(Error::PathUnicodeError(self.filtered_paths[k].clone()));
                },
                Some(text) => {
                    out.append(goto(1, row).as_str());
                    out.append(clear_line().as_str());
                    out.append(text);
                    out.append(reset_style().as_str());
                },
            }
            k = k + 1;
        }
        out.append(show_cursor().as_str());
        Ok(out)
    }
}

} // verus!
