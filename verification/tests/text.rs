use asthetic_clipboard::text::{blank, first_line, shorten, trim};

const SAMPLES: [&str; 14] = [
    "",
    " ",
    "a",
    "  a  ",
    "\t\n x y \r\n",
    "\u{a0}caf\u{e9}\u{2003}",
    "\u{200b}",
    "line one\nline two",
    "line one\r\nline two",
    "line one\r",
    "\nbody",
    "\r\nbody",
    "a\rb\nc",
    "\u{3000}\u{2028}",
];

#[test]
fn blank_texts() {
    assert!(blank(""));
    assert!(blank(" \t\r\n"));
    assert!(blank("\u{a0}\u{2003}\u{3000}"));
    assert!(!blank(" a "));
    assert!(!blank("\u{200b}"));
    for text in SAMPLES {
        assert_eq!(blank(text), text.trim().is_empty());
    }
}

#[test]
fn trim_drops_white_space_at_both_ends() {
    assert_eq!(trim("  a b  "), "a b");
    assert_eq!(trim("\n\t"), "");
    assert_eq!(trim("x"), "x");
    for text in SAMPLES {
        assert_eq!(trim(text), text.trim());
    }
}

#[test]
fn first_line_stops_at_the_line_feed() {
    assert_eq!(first_line("one\ntwo\nthree"), "one");
    assert_eq!(first_line("one\r\ntwo"), "one");
    assert_eq!(first_line("one\r"), "one\r");
    assert_eq!(first_line("\ntwo"), "");
    assert_eq!(first_line(""), "");
    for text in SAMPLES {
        assert_eq!(first_line(text), text.lines().next().unwrap_or(""));
    }
}

#[test]
fn shorten_cuts_after_the_limit() {
    assert_eq!(shorten("hello", 5), ("hello".to_string(), false));
    assert_eq!(shorten("hello!", 5), ("hello...".to_string(), true));
    assert_eq!(shorten("", 0), ("".to_string(), false));
    assert_eq!(shorten("a", 0), ("...".to_string(), true));
    assert_eq!(shorten("caf\u{e9}s", 4), ("caf\u{e9}...".to_string(), true));
    let long: String = "x".repeat(501);
    let (shown, cut) = shorten(&long, 500);
    assert!(cut);
    assert_eq!(shown.chars().count(), 503);
    assert!(shown.ends_with("..."));
    let exact: String = "x".repeat(500);
    assert_eq!(shorten(&exact, 500), (exact.clone(), false));
}
