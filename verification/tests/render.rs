use projectfinder::error::Error;
use projectfinder::key::Key;
use projectfinder::path::ProjectPath;
use projectfinder::tui::Window;

fn candidates(texts: &[&str]) -> Vec<ProjectPath> {
    texts.iter().map(|text| ProjectPath::from_text(text)).collect()
}

fn numbered(count: usize) -> Vec<ProjectPath> {
    (0..count).map(|i| ProjectPath::from_text(&format!("/p/{}", i))).collect()
}

fn cleared(first: u16, last: u16) -> String {
    let mut out = String::new();
    for row in first..=last {
        out.push_str(&format!("\x1b[{};1H\x1b[2K", row));
    }
    out
}

#[test]
fn opening_clears_the_screen() {
    assert_eq!(Window::opening(), "\x1b[2J\x1b[m\x1b[1;1H");
}

#[test]
fn closing_clears_the_screen_and_shows_the_cursor() {
    assert_eq!(Window::closing(), "\x1b[2J\x1b[m\x1b[1;1H\x1b[?25h");
}

#[test]
fn prompt_shows_the_filter_text() {
    let mut window = Window::init(80, 24, candidates(&["/a"]));
    assert_eq!(window.before_next_iter(), "\x1b[m\x1b[24;1H> \x1b[J");
    window.push('a');
    window.push('é');
    assert_eq!(window.before_next_iter(), "\x1b[m\x1b[24;1H> aé\x1b[J");
}

#[test]
fn prompt_row_is_the_height_of_the_terminal() {
    let window = Window::init(120, 1000, Vec::new());
    assert_eq!(window.before_next_iter(), "\x1b[m\x1b[1000;1H> \x1b[J");
    let window = Window::init(1, 65535, Vec::new());
    assert_eq!(window.before_next_iter(), "\x1b[m\x1b[65535;1H> \x1b[J");
}

#[test]
fn legend_lists_the_registered_keys() {
    let mut window = Window::init(10, 24, candidates(&["/a"]));
    let first = window.register_help(Key::Ctrl('c'), "Quit");
    assert_eq!(
        first,
        "\x1b[?25l\x1b[48;5;0m\x1b[1;1H          \x1b[1;1Hctrl + c \u{25BA} Quit    "
    );
    let second = window.register_help(Key::Char('\n'), "Choose");
    assert_eq!(
        second,
        "\x1b[?25l\x1b[48;5;0m\x1b[1;1H          \x1b[1;1Hctrl + c \u{25BA} Quit    \u{21B2} \u{25BA} Choose    "
    );
}

#[test]
fn legend_fills_the_width_of_the_terminal() {
    let mut window = Window::init(0, 24, Vec::new());
    assert_eq!(
        window.register_help(Key::Esc, ""),
        "\x1b[?25l\x1b[48;5;0m\x1b[1;1H\x1b[1;1H\u{238B} \u{25BA}     "
    );
    let mut window = Window::init(300, 24, Vec::new());
    let line = window.register_help(Key::F(1), "Help");
    let expected = format!(
        "\x1b[?25l\x1b[48;5;0m\x1b[1;1H{}\x1b[1;1HF1 \u{25BA} Help    ",
        " ".repeat(300)
    );
    assert_eq!(line, expected);
}

#[test]
fn every_key_has_a_label() {
    let expected = [
        (Key::Backspace, "\u{232B}"),
        (Key::Left, "\u{2190}"),
        (Key::Right, "\u{2192}"),
        (Key::Up, "\u{2191}"),
        (Key::Down, "\u{2193}"),
        (Key::Home, "\u{2912}"),
        (Key::End, "\u{2913}"),
        (Key::PageUp, "\u{21DE}"),
        (Key::PageDown, "\u{21DF}"),
        (Key::BackTab, "\u{21E4}"),
        (Key::Delete, "\u{2326}"),
        (Key::Insert, "\u{2324}"),
        (Key::F(1), "F1"),
        (Key::F(12), "F12"),
        (Key::F(0), "F0"),
        (Key::F(255), "F255"),
        (Key::Char('\n'), "\u{21B2}"),
        (Key::Char('\t'), "\u{21E5}"),
        (Key::Char('a'), "a"),
        (Key::Char(' '), " "),
        (Key::Char('é'), "é"),
        (Key::Alt('x'), "alt + x"),
        (Key::Ctrl('c'), "ctrl + c"),
        (Key::Esc, "\u{238B}"),
        (Key::Null, "?"),
    ];
    for (key, label) in expected {
        assert_eq!(key.label(), label, "{:?}", key);
    }
}

#[test]
fn status_counts_the_view_when_it_fits() {
    let window = Window::init(80, 24, candidates(&["/a", "/b", "/c"]));
    assert_eq!(window.draw_status(), "\x1b[?25l\x1b[m\x1b[23;1H\x1b[1m[3/3]\x1b[38;5;8m");
    let window = Window::init(80, 24, Vec::new());
    assert_eq!(window.draw_status(), "\x1b[?25l\x1b[m\x1b[23;1H\x1b[1m[0/0]\x1b[38;5;8m");
    let window = Window::init(80, 24, numbered(21));
    assert_eq!(window.draw_status(), "\x1b[?25l\x1b[m\x1b[23;1H\x1b[1m[21/21]\x1b[38;5;8m");
}

#[test]
fn status_shows_the_capacity_when_the_view_exceeds_it() {
    let window = Window::init(80, 24, numbered(22));
    assert_eq!(window.draw_status(), "\x1b[?25l\x1b[m\x1b[23;1H\x1b[1m[22/21]\x1b[38;5;8m");
    let window = Window::init(80, 24, numbered(130));
    assert_eq!(window.draw_status(), "\x1b[?25l\x1b[m\x1b[23;1H\x1b[1m[130/21]\x1b[38;5;8m");
    let window = Window::init(80, 5, numbered(4));
    assert_eq!(window.draw_status(), "\x1b[?25l\x1b[m\x1b[4;1H\x1b[1m[4/2]\x1b[38;5;8m");
}

#[test]
fn status_follows_the_filter() {
    let mut window = Window::init(80, 24, candidates(&["/a/one", "/a/two", "/b/one"]));
    window.push('o');
    window.push('n');
    window.filter_by_input().unwrap();
    assert_eq!(window.draw_status(), "\x1b[?25l\x1b[m\x1b[23;1H\x1b[1m[2/2]\x1b[38;5;8m");
}

#[test]
fn paths_are_listed_from_the_bottom_up() {
    let window = Window::init(20, 7, candidates(&["/a/one", "/a/two"]));
    let expected = format!(
        "{}\x1b[m{}\x1b[5;1H\x1b[2K/a/one\x1b[m\x1b[4;1H\x1b[2K/a/two\x1b[m\x1b[?25h",
        "\u{2014}".repeat(14),
        cleared(2, 5),
    );
    assert_eq!(window.draw_paths(6).unwrap(), expected);
}

#[test]
fn paths_beyond_the_capacity_are_not_drawn() {
    let window = Window::init(20, 6, candidates(&["/1", "/2", "/3", "/4", "/5"]));
    let expected = format!(
        "{}\x1b[m{}\x1b[4;1H\x1b[2K/1\x1b[m\x1b[3;1H\x1b[2K/2\x1b[m\x1b[2;1H\x1b[2K/3\x1b[m\x1b[?25h",
        "\u{2014}".repeat(12),
        cleared(2, 4),
    );
    assert_eq!(window.draw_paths(8).unwrap(), expected);
}

#[test]
fn a_full_surface_lists_one_path_on_each_row() {
    let window = Window::init(80, 24, numbered(40));
    let mut expected = format!("{}\x1b[m{}", "\u{2014}".repeat(72), cleared(2, 22));
    for i in 0..21 {
        expected.push_str(&format!("\x1b[{};1H\x1b[2K/p/{}\x1b[m", 22 - i, i));
    }
    expected.push_str("\x1b[?25h");
    assert_eq!(window.draw_paths(8).unwrap(), expected);
}

#[test]
fn the_rule_ends_where_the_surface_ends() {
    let window = Window::init(10, 24, Vec::new());
    let rest = format!("\x1b[m{}\x1b[?25h", cleared(2, 22));
    assert_eq!(window.draw_paths(1).unwrap(), format!("{}{}", "\u{2014}".repeat(9), rest));
    assert_eq!(window.draw_paths(9).unwrap(), format!("\u{2014}{}", rest));
    assert_eq!(window.draw_paths(10).unwrap(), rest);
    assert_eq!(window.draw_paths(11).unwrap(), rest);
    assert_eq!(window.draw_paths(65535).unwrap(), rest);
    assert_eq!(window.draw_paths(0).unwrap(), format!("{}{}", "\u{2014}".repeat(10), rest));
}

#[test]
fn a_terminal_too_short_for_a_surface_lists_nothing() {
    for height in [2u16, 3] {
        let window = Window::init(12, height, candidates(&["/a", "/b"]));
        let expected = format!("{}\x1b[m\x1b[?25h", "\u{2014}".repeat(7));
        assert_eq!(window.draw_paths(5).unwrap(), expected);
        let status = format!("\x1b[?25l\x1b[m\x1b[{};1H\x1b[1m[2/0]\x1b[38;5;8m", height - 1);
        assert_eq!(window.draw_status(), status);
    }
    let window = Window::init(12, 4, candidates(&["/a", "/b"]));
    let expected =
        format!("{}\x1b[m\x1b[2;1H\x1b[2K\x1b[2;1H\x1b[2K/a\x1b[m\x1b[?25h", "\u{2014}".repeat(7));
    assert_eq!(window.draw_paths(5).unwrap(), expected);
}

#[test]
fn drawing_follows_the_filter() {
    let mut window = Window::init(20, 7, candidates(&["/a/one", "/a/two", "/b/one"]));
    window.push('b');
    window.filter_by_input().unwrap();
    let expected = format!(
        "{}\x1b[m{}\x1b[5;1H\x1b[2K/b/one\x1b[m\x1b[?25h",
        "\u{2014}".repeat(14),
        cleared(2, 5),
    );
    assert_eq!(window.draw_paths(6).unwrap(), expected);
}

#[test]
fn a_path_without_text_fails_the_drawing() {
    let paths = vec![
        ProjectPath::from_text("/fine"),
        ProjectPath::from_bytes(vec![b'/', 0xff]),
        ProjectPath::from_bytes(vec![b'/', 0xfe]),
    ];
    let window = Window::init(80, 24, paths);
    match window.draw_paths(6) {
        Err(Error::PathUnicodeError(path)) => {
            assert_eq!(path, ProjectPath::from_bytes(vec![b'/', 0xff]))
        }
        other => panic!("unexpected result {:?}", other),
    }
}

#[test]
fn a_path_without_text_that_is_not_shown_does_no_harm() {
    let paths = vec![
        ProjectPath::from_text("/fine"),
        ProjectPath::from_bytes(vec![b'/', 0xff]),
    ];
    let window = Window::init(20, 4, paths);
    let expected =
        format!("{}\x1b[m\x1b[2;1H\x1b[2K\x1b[2;1H\x1b[2K/fine\x1b[m\x1b[?25h", "\u{2014}".repeat(14));
    assert_eq!(window.draw_paths(6).unwrap(), expected);
}
