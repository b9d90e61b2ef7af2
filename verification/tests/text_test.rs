use live_translator::log::{set_quiet, Log};
use live_translator::single::Single;
use live_translator::text::{
    blank, chars_of, contains, decimal, equal_letters, lines, prefixed, string_of, to_ascii_lower,
    trim, white_space,
};

fn single(x: f32) -> Single {
    Single::from_bits(x.to_bits())
}

#[test]
fn white_space_is_what_unicode_says() {
    for c in (0..0x11_0000u32).filter_map(char::from_u32) {
        assert_eq!(white_space(c), c.is_whitespace(), "{:?}", c);
    }
}

#[test]
fn trimming_cuts_both_ends_and_is_stable() {
    let cs = chars_of("\u{3000}\t hello world \r\n");
    let once = trim(&cs);
    assert_eq!(string_of(once), "hello world");
    assert_eq!(trim(once), once);
    assert!(trim(&chars_of(" \n\u{a0}")).is_empty());
}

#[test]
fn blank_texts() {
    assert!(blank(""));
    assert!(blank(" \t\u{2003}"));
    assert!(!blank(" . "));
}

#[test]
fn only_ascii_letters_are_lowered() {
    assert_eq!(to_ascii_lower('A'), 'a');
    assert_eq!(to_ascii_lower('Z'), 'z');
    assert_eq!(to_ascii_lower('['), '[');
    assert_eq!(to_ascii_lower('Ä'), 'Ä');
}

#[test]
fn parts_are_found_anywhere() {
    let s = chars_of("analog-stereo");
    assert!(contains(&s, &chars_of("analog")));
    assert!(contains(&s, &chars_of("stereo")));
    assert!(contains(&s, &chars_of("g-s")));
    assert!(contains(&s, &[]));
    assert!(!contains(&s, &chars_of("stereo2")));
    assert!(!contains(&[], &chars_of("a")));
}

#[test]
fn numbers_in_decimal() {
    assert_eq!(decimal(0), "0");
    assert_eq!(decimal(16000), "16000");
    assert_eq!(decimal(u64::MAX), "18446744073709551615");
}

#[test]
fn letters_of_either_case_are_equal() {
    let lower = chars_of("monitor");
    assert!(equal_letters(&chars_of("MonItor"), &lower));
    assert!(!equal_letters(&chars_of("monitors"), &lower));
    assert!(!equal_letters(&chars_of("mon\u{130}tor"), &lower));
}

#[test]
fn lines_end_like_those_of_the_standard_library() {
    for text in ["", "a", "a\n", "a\r\nb\r", "\n\nx", "a\rb\n\r\n", "a\n\nb\n"] {
        let expected: Vec<&str> = text.lines().collect();
        assert_eq!(lines(&chars_of(text)), expected, "{:?}", text);
    }
}

#[test]
fn prefixes_come_first() {
    assert_eq!(prefixed("  ... ", "hi"), "  ... hi");
}

#[test]
fn singles_compare_like_floats() {
    let xs = [
        0.0f32, -0.0, 1.0, -1.0, -3.0, -2.9999998, 0.001, 0.005, f32::INFINITY, f32::NEG_INFINITY,
        f32::NAN, f32::MIN_POSITIVE, f32::MAX, -1.0e-40,
    ];
    for a in xs {
        for b in xs {
            assert_eq!(single(a).gt(single(b)), a > b, "{} > {}", a, b);
            assert_eq!(single(a).ge(single(b)), a >= b, "{} >= {}", a, b);
        }
    }
}

#[test]
fn diagnostics_can_be_turned_off_and_on() {
    let mut log = Log::new();
    assert!(log.enabled());
    set_quiet(&mut log, true);
    assert!(!log.enabled());
    set_quiet(&mut log, false);
    assert!(log.enabled());
}
