use projectfinder::error::Error;
use projectfinder::key::{printable, Key};
use projectfinder::path::ProjectPath;
use projectfinder::tui::{SessionState, Surface, Window};

fn candidates(texts: &[&str]) -> Vec<ProjectPath> {
    texts.iter().map(|text| ProjectPath::from_text(text)).collect()
}

fn texts(paths: &Vec<ProjectPath>) -> Vec<String> {
    paths.iter().map(|path| path.to_str().unwrap().to_string()).collect()
}

fn type_text(window: &mut Window, text: &str) {
    for ch in text.chars() {
        match window.handle(Some(Key::Char(ch))) {
            SessionState::Running => {}
            other => panic!("typing {:?} gave {:?}", ch, other),
        }
    }
}

#[test]
fn init_shows_every_candidate() {
    let window = Window::init(80, 24, candidates(&["/a/one", "/a/two", "/b/one"]));
    assert_eq!(window.get_input(), "");
    assert_eq!(texts(window.paths()), vec!["/a/one", "/a/two", "/b/one"]);
    assert_eq!(texts(window.filtered_paths()), vec!["/a/one", "/a/two", "/b/one"]);
    assert_eq!(window.surface(), Surface::new(1, 2, 80, 22));
}

#[test]
fn surface_new_takes_columns_then_rows() {
    let surface = Surface::new(1, 2, 80, 22);
    assert_eq!(surface.col_start, 1);
    assert_eq!(surface.row_start, 2);
    assert_eq!(surface.col_end, 80);
    assert_eq!(surface.row_end, 22);
    assert_eq!(surface.rows(), 21);
}

#[test]
fn surface_without_rows_has_no_capacity() {
    assert_eq!(Surface::new(1, 2, 80, 1).rows(), 0);
    assert_eq!(Surface::new(1, 2, 80, 0).rows(), 0);
    assert_eq!(Surface::new(1, 2, 80, 2).rows(), 1);
    assert_eq!(Surface::new(1, 0, 80, 65535).rows(), 65536);
}

#[test]
fn filtered_view_is_the_matching_subsequence() {
    let all = ["/home/me/alpha", "/srv/beta", "/home/me/gamma", "/srv/alphabet", "/opt/delta"];
    let mut window = Window::init(80, 24, candidates(&all));
    type_text(&mut window, "alpha");
    window.filter_by_input().unwrap();
    assert_eq!(window.get_input(), "alpha");
    assert_eq!(texts(window.filtered_paths()), vec!["/home/me/alpha", "/srv/alphabet"]);
    assert_eq!(texts(window.paths()), all.to_vec());
}

#[test]
fn filtering_agrees_with_substring_search() {
    let all = ["/a/bb/a", "/b/ab", "", "/ba/b", "/abab", "é/ü", "/a b"];
    for needle in ["", "a", "b", "ab", "ba", "/a", "b/a", "abab", "ababa", "é", "ü", " ", "/"] {
        let mut window = Window::init(80, 24, candidates(&all));
        type_text(&mut window, needle);
        window.filter_by_input().unwrap();
        let expected: Vec<String> =
            all.iter().filter(|text| text.contains(needle)).map(|text| text.to_string()).collect();
        assert_eq!(texts(window.filtered_paths()), expected, "needle {:?}", needle);
    }
}

#[test]
fn empty_filter_matches_everything() {
    let mut window = Window::init(80, 24, candidates(&["/x", "/y", ""]));
    window.filter_by_input().unwrap();
    assert_eq!(texts(window.filtered_paths()), vec!["/x", "/y", ""]);
}

#[test]
fn filter_is_case_sensitive() {
    let mut window = Window::init(80, 24, candidates(&["/Work", "/work", "/WORK"]));
    type_text(&mut window, "Wo");
    window.filter_by_input().unwrap();
    assert_eq!(texts(window.filtered_paths()), vec!["/Work"]);
}

#[test]
fn filtering_starts_from_the_candidate_set_each_time() {
    let mut window = Window::init(80, 24, candidates(&["/one", "/two", "/three"]));
    type_text(&mut window, "tw");
    window.filter_by_input().unwrap();
    assert_eq!(texts(window.filtered_paths()), vec!["/two"]);
    window.handle(Some(Key::Backspace));
    window.filter_by_input().unwrap();
    assert_eq!(texts(window.filtered_paths()), vec!["/two", "/three"]);
}

#[test]
fn push_then_pop_restores_the_filter() {
    for start in ["", "a", "proj", "é"] {
        let mut window = Window::init(80, 24, candidates(&["/proj/a", "/proj/b", "/other"]));
        for ch in start.chars() {
            window.push(ch);
        }
        window.filter_by_input().unwrap();
        let before = texts(window.filtered_paths());
        window.push('x');
        assert_eq!(window.pop(), Some('x'));
        assert_eq!(window.get_input(), start);
        window.filter_by_input().unwrap();
        assert_eq!(texts(window.filtered_paths()), before);
    }
}

#[test]
fn pop_on_an_empty_filter_changes_nothing() {
    let mut window = Window::init(80, 24, candidates(&["/a"]));
    assert_eq!(window.pop(), None);
    assert_eq!(window.get_input(), "");
    match window.handle(Some(Key::Backspace)) {
        SessionState::Running => {}
        other => panic!("unexpected state {:?}", other),
    }
    assert_eq!(window.get_input(), "");
}

#[test]
fn pop_returns_the_last_character() {
    let mut window = Window::init(80, 24, Vec::new());
    window.push('a');
    window.push('ß');
    assert_eq!(window.get_input(), "aß");
    assert_eq!(window.pop(), Some('ß'));
    assert_eq!(window.pop(), Some('a'));
    assert_eq!(window.pop(), None);
}

#[test]
fn accept_on_an_empty_view_keeps_running() {
    let mut window = Window::init(80, 24, candidates(&["/a/one", "/a/two"]));
    type_text(&mut window, "zzz");
    window.filter_by_input().unwrap();
    assert!(window.filtered_paths().is_empty());
    assert_eq!(window.get_selected(), None);
    match window.handle(Some(Key::Char('\n'))) {
        SessionState::Running => {}
        other => panic!("unexpected state {:?}", other),
    }
    assert_eq!(window.get_input(), "zzz");
}

#[test]
fn accept_selects_the_first_of_the_view() {
    let mut window = Window::init(80, 24, candidates(&["/a/one", "/a/two", "/b/two"]));
    type_text(&mut window, "two");
    window.filter_by_input().unwrap();
    assert_eq!(window.get_selected(), Some(ProjectPath::from_text("/a/two")));
    match window.handle(Some(Key::Char('\n'))) {
        SessionState::Selected(path) => assert_eq!(path, ProjectPath::from_text("/a/two")),
        other => panic!("unexpected state {:?}", other),
    }
    assert_eq!(window.get_input(), "two");
}

#[test]
fn interrupt_cancels() {
    let mut window = Window::init(80, 24, candidates(&["/a"]));
    assert!(matches!(window.handle(Some(Key::Ctrl('c'))), SessionState::Cancelled));
    assert!(matches!(window.handle(Some(Key::Ctrl('d'))), SessionState::Running));
    assert!(matches!(window.handle(Some(Key::Alt('c'))), SessionState::Running));
}

#[test]
fn end_of_input_ends_the_session() {
    let mut window = Window::init(80, 24, candidates(&["/a"]));
    assert!(matches!(window.handle(None), SessionState::EndOfInput));
}

#[test]
fn other_keys_are_ignored() {
    let mut window = Window::init(80, 24, candidates(&["/a", "/b"]));
    window.push('a');
    for key in [
        Key::Left,
        Key::Right,
        Key::Up,
        Key::Down,
        Key::Home,
        Key::End,
        Key::PageUp,
        Key::PageDown,
        Key::BackTab,
        Key::Delete,
        Key::Insert,
        Key::F(5),
        Key::Alt('x'),
        Key::Ctrl('x'),
        Key::Null,
        Key::Esc,
    ] {
        assert!(matches!(window.handle(Some(key)), SessionState::Running));
        assert_eq!(window.get_input(), "a");
        assert_eq!(texts(window.filtered_paths()), vec!["/a", "/b"]);
    }
}

#[test]
fn control_characters_are_not_typed() {
    let mut window = Window::init(80, 24, candidates(&["/a"]));
    window.push('a');
    for ch in ['\t', '\r', '\0', '\u{1b}', '\u{1f}', '\u{7f}', '\u{80}', '\u{9f}'] {
        assert!(matches!(window.handle(Some(Key::Char(ch))), SessionState::Running));
        assert_eq!(window.get_input(), "a");
    }
}

#[test]
fn printable_characters_are_typed() {
    let mut window = Window::init(80, 24, candidates(&["/a"]));
    for ch in [' ', '~', '/', 'A', '\u{a0}', 'é', '—', '🦀'] {
        assert!(matches!(window.handle(Some(Key::Char(ch))), SessionState::Running));
    }
    assert_eq!(window.get_input(), " ~/A\u{a0}é—🦀");
}

#[test]
fn printable_is_what_is_no_control_character() {
    for code in 0..0x3000u32 {
        if let Some(ch) = char::from_u32(code) {
            assert_eq!(printable(ch), !ch.is_control(), "{:?}", ch);
        }
    }
}

#[test]
fn filter_paths_keeps_what_the_closure_accepts() {
    let mut window = Window::init(80, 24, candidates(&["/a/1", "/b/2", "/a/3", "/c/4"]));
    window.filter_paths(|path| path.to_str().unwrap().starts_with("/a"));
    assert_eq!(texts(window.filtered_paths()), vec!["/a/1", "/a/3"]);
    window.filter_paths(|_| false);
    assert!(window.filtered_paths().is_empty());
    window.filter_paths(|_| true);
    assert_eq!(texts(window.filtered_paths()), vec!["/a/1", "/b/2", "/a/3", "/c/4"]);
    assert_eq!(texts(window.paths()), vec!["/a/1", "/b/2", "/a/3", "/c/4"]);
}

#[test]
fn filter_paths_with_the_substring_rule() {
    let mut window = Window::init(80, 24, candidates(&["/x/proj", "/y/other", "/z/project"]));
    window.push('p');
    window.push('r');
    let input = window.get_input().to_string();
    window.filter_paths(|path| path.to_str().unwrap().contains(&input));
    assert_eq!(texts(window.filtered_paths()), vec!["/x/proj", "/z/project"]);
}

#[test]
fn a_candidate_without_text_fails_the_filter() {
    let paths = vec![
        ProjectPath::from_text("/fine"),
        ProjectPath::from_bytes(vec![b'/', 0xff, b'a']),
        ProjectPath::from_bytes(vec![b'/', 0xc3]),
    ];
    let mut window = Window::init(80, 24, paths);
    window.push('f');
    match window.filter_by_input() {
        Err(Error::PathUnicodeError(path)) => {
            assert_eq!(path, ProjectPath::from_bytes(vec![b'/', 0xff, b'a']))
        }
        other => panic!("unexpected result {:?}", other),
    }
    assert_eq!(window.filtered_paths().len(), 3);
    assert_eq!(window.get_input(), "f");
}
