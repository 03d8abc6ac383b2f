use projectfinder::text::{chars_of, contains, decimal, push_decimal, push_run};

fn chars(text: &str) -> Vec<char> {
    text.chars().collect()
}

#[test]
fn decimal_numerals() {
    assert_eq!(decimal(0), "0");
    assert_eq!(decimal(7), "7");
    assert_eq!(decimal(10), "10");
    assert_eq!(decimal(109), "109");
    assert_eq!(decimal(65535), "65535");
    assert_eq!(decimal(1_000_000), "1000000");
    assert_eq!(decimal(usize::MAX), usize::MAX.to_string());
}

#[test]
fn decimal_agrees_with_the_standard_formatting() {
    for n in 0..2000usize {
        assert_eq!(decimal(n), n.to_string());
    }
}

#[test]
fn push_decimal_appends() {
    let mut out = String::from("[");
    push_decimal(&mut out, 42);
    out.push('/');
    push_decimal(&mut out, 0);
    assert_eq!(out, "[42/0");
}

#[test]
fn push_run_appends_copies() {
    let mut out = String::from("ab");
    push_run(&mut out, '—', 3);
    assert_eq!(out, "ab———");
    push_run(&mut out, 'x', 0);
    assert_eq!(out, "ab———");
}

#[test]
fn chars_of_decodes_every_character() {
    assert_eq!(chars_of(""), Vec::<char>::new());
    assert_eq!(chars_of("a/é—🦀"), vec!['a', '/', 'é', '—', '🦀']);
}

#[test]
fn contains_finds_substrings() {
    assert!(contains(&chars("hello"), &chars("")));
    assert!(contains(&chars(""), &chars("")));
    assert!(!contains(&chars(""), &chars("a")));
    assert!(contains(&chars("hello"), &chars("hello")));
    assert!(contains(&chars("hello"), &chars("h")));
    assert!(contains(&chars("hello"), &chars("o")));
    assert!(contains(&chars("hello"), &chars("ell")));
    assert!(!contains(&chars("hello"), &chars("elo")));
    assert!(!contains(&chars("hello"), &chars("helloo")));
    assert!(contains(&chars("aaab"), &chars("aab")));
    assert!(!contains(&chars("aaab"), &chars("aaba")));
    assert!(!contains(&chars("Hello"), &chars("hello")));
}

#[test]
fn contains_agrees_with_the_standard_search() {
    let hays = ["", "a", "ab", "abab", "aabaab", "xyz", "é—é", "/home/me/project"];
    let needles = ["", "a", "b", "ab", "ba", "aab", "baa", "é", "—é", "me/p", "project/"];
    for hay in hays {
        for needle in needles {
            assert_eq!(
                contains(&chars(hay), &chars(needle)),
                hay.contains(needle),
                "{:?} in {:?}",
                needle,
                hay
            );
        }
    }
}
