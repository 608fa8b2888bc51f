use ransomshield::clock::{age_of, stamp_from, unix_seconds, Clock};
use ransomshield::path::{duplicate_all, is_within_any, FilePath};
use ransomshield::text::{
    eq_ignore_ascii_case, is_control, is_whitespace, parse_u64, push_decimal, push_octal,
    push_signed_decimal, sanitize, split_words, to_hex,
};

fn path(text: &str) -> FilePath {
    FilePath::from_text(text)
}

#[test]
fn control_characters_are_replaced() {
    assert_eq!(sanitize("a\nb\u{1b}[0m\u{85}\u{7f}"), "a\u{FFFD}b\u{FFFD}[0m\u{FFFD}\u{FFFD}");
    assert_eq!(sanitize("plain \u{e9}\u{1F600}"), "plain \u{e9}\u{1F600}");
    for code in 0..0x3000u32 {
        if let Some(c) = char::from_u32(code) {
            assert_eq!(is_control(c), c.is_control());
            assert_eq!(is_whitespace(c), c.is_whitespace());
        }
    }
    assert!(is_whitespace('\u{3000}'));
}

#[test]
fn numbers_are_written_as_usual() {
    let mut out = String::from("n=");
    push_decimal(&mut out, 0);
    out.push(' ');
    push_decimal(&mut out, u128::MAX);
    out.push(' ');
    push_signed_decimal(&mut out, i32::MIN);
    out.push(' ');
    push_octal(&mut out, 0o7654);
    assert_eq!(out, format!("n=0 {} {} 7654", u128::MAX, i32::MIN));
    assert_eq!(to_hex(&[0x00, 0x0f, 0xab, 0xff]), "000fabff");
}

#[test]
fn numbers_are_read_as_usual() {
    for text in ["0", "007", "+5", "18446744073709551615", "18446744073709551616", "", "+", "-1", "1x"] {
        let chars: Vec<char> = text.chars().collect();
        assert_eq!(parse_u64(&chars), text.parse::<u64>().ok());
    }
}

#[test]
fn words_are_split_as_usual() {
    for text in ["", "  ", "a", " a  bc\td\n", "\u{2003}x\u{2003}y"] {
        let chars: Vec<char> = text.chars().collect();
        let ours: Vec<String> =
            split_words(&chars, 0).iter().map(|w| w.iter().collect()).collect();
        let theirs: Vec<String> = text.split_whitespace().map(|w| w.to_string()).collect();
        assert_eq!(ours, theirs);
    }
}

#[test]
fn case_is_ignored_in_ascii_only() {
    assert!(eq_ignore_ascii_case("aBc09", "AbC09"));
    assert!(!eq_ignore_ascii_case("abc", "abcd"));
    assert!(!eq_ignore_ascii_case("\u{e9}", "\u{c9}"));
}

#[test]
fn paths_begin_with_whole_components() {
    assert!(path("/data/x").starts_with(&path("/data")));
    assert!(path("/data//x/").starts_with(&path("/data/")));
    assert!(path("/data/x").starts_with(&path("/")));
    assert!(!path("/database").starts_with(&path("/data")));
    assert!(!path("data/x").starts_with(&path("/data")));
    assert!(!path("/data").starts_with(&path("/data/x")));
    assert!(path("a").starts_with(&path("")));
    for text in ["/a/./b", "./a", "a/.", "//a", "a//b/", ".", "/", "", "a/../b"] {
        for base in ["/a", "a", ".", "", "/", "a/..", "./a", "/a/b"] {
            assert_eq!(
                path(text).starts_with(&path(base)),
                std::path::Path::new(text).starts_with(base),
                "{text} and {base}"
            );
            assert_eq!(
                path(text).same(&path(base)),
                std::path::Path::new(text) == std::path::Path::new(base),
                "{text} and {base}"
            );
        }
    }
}

#[test]
fn paths_are_joined_as_usual() {
    for dir in ["/data", "/data/", "", "/", "a"] {
        assert_eq!(
            path(dir).join("name").display(),
            std::path::Path::new(dir).join("name").display().to_string()
        );
    }
}

#[test]
fn a_path_that_is_no_text_is_shown_all_the_same() {
    let odd = FilePath::new(vec![b'/', 0xff, b'a', 0xe2, 0x82]);
    assert_eq!(odd.display(), String::from_utf8_lossy(&[b'/', 0xff, b'a', 0xe2, 0x82]));
    assert_eq!(odd.display(), "/\u{FFFD}a\u{FFFD}");
    assert_eq!(odd.duplicate().bytes, odd.bytes);
}

#[test]
fn a_path_lies_in_a_root_or_in_none() {
    let roots = vec![path("/a"), path("/b/c")];
    assert!(is_within_any(&path("/b/c/d"), &roots));
    assert!(!is_within_any(&path("/b/d"), &roots));
    assert!(!is_within_any(&path("/b/d"), &vec![]));
    let copies = duplicate_all(&roots);
    assert_eq!(copies[1].display(), "/b/c");
}

#[test]
fn ages_do_not_go_below_zero() {
    assert_eq!(age_of(10, 4), 6);
    assert_eq!(age_of(4, 10), 0);
}

#[test]
fn the_time_is_this_century() {
    assert_eq!(stamp_from(None), 0);
    assert_eq!(stamp_from(Some((12, 999_999_999))), 12);
    assert!(unix_seconds() > 1_600_000_000);
    let mut clock = Clock::start();
    let first = clock.read();
    assert!(first <= clock.read());
    let mut ahead = Clock::start();
    assert_eq!(ahead.reach(u128::MAX - 1), u128::MAX - 1);
    assert_eq!(ahead.reach(5), u128::MAX - 1);
    assert_eq!(ahead.reach(u128::MAX), u128::MAX);
    assert_eq!(ahead.read(), u128::MAX);
}
