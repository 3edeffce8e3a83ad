use veex::text::{
    decimal_text, hex_byte_text, is_blank, is_white_space, join, normalize_domain, parse_number,
    same_text_ignoring_case, split_lines, split_once, split_text, split_words, starts_with,
    to_lower, trim_text,
};
use veex::time::{Clock, Duration, Instant};

const SAMPLES: [&str; 9] = [
    "",
    "plain",
    " a  b ",
    "\t\u{a0}x\u{3000}y\r\n",
    "..a..B..",
    "\u{c4}\u{e4}Z",
    "a\r\nb\r\n\r\nc\rd\ne",
    "k: v: w",
    "\u{feff}\u{200b}z",
];

#[test]
fn white_space_is_what_the_standard_library_says() {
    for code in 0..=0x10ffffu32 {
        if let Some(c) = char::from_u32(code) {
            assert_eq!(is_white_space(c), c.is_whitespace(), "{code:x}");
        }
    }
}

#[test]
fn text_functions_agree_with_the_standard_library() {
    for s in SAMPLES {
        assert_eq!(trim_text(s), s.trim());
        assert_eq!(is_blank(s), s.trim().is_empty());
        assert_eq!(to_lower(s), s.to_ascii_lowercase());
        assert_eq!(split_text(s, '.'), s.split('.').collect::<Vec<_>>());
        assert_eq!(split_words(s), s.split_whitespace().collect::<Vec<_>>());
        assert_eq!(split_lines(s), s.split("\r\n").collect::<Vec<_>>());
        assert_eq!(
            normalize_domain(s),
            s.trim_end_matches('.').to_ascii_lowercase()
        );
        assert_eq!(
            split_once(s, ':'),
            s.split_once(':').map(|(a, b)| (a.to_string(), b.to_string()))
        );
        for t in SAMPLES {
            assert_eq!(starts_with(s, t), s.starts_with(t));
            assert_eq!(same_text_ignoring_case(s, t), s.eq_ignore_ascii_case(t));
        }
    }
}

#[test]
fn splitting_and_joining_undo_each_other() {
    for s in SAMPLES {
        assert_eq!(join(&split_text(s, '.'), "."), s);
        assert_eq!(normalize_domain(&normalize_domain(s)), normalize_domain(s));
    }
    assert_eq!(join(&Vec::new(), ","), "");
}

#[test]
fn numbers_are_written_and_read() {
    for n in [0u128, 9, 10, 4096, u64::MAX as u128, u128::MAX] {
        assert_eq!(decimal_text(n), n.to_string());
    }
    for b in 0..=255u8 {
        assert_eq!(hex_byte_text(b), format!("{b:02x}"));
    }
    for text in ["", "+", "0", "+7", "-7", "00255", "256", "2 5", "\u{661}", "18446744073709551616"]
    {
        match (parse_number(text, 255), text.parse::<u8>()) {
            (Ok(found), Ok(expected)) => assert_eq!(found, expected as u64),
            (Err(found), Err(expected)) => assert_eq!(found.as_str(), expected.to_string()),
            (found, expected) => panic!("{text}: {found:?} {expected:?}"),
        }
    }
}

#[test]
fn durations_and_instants_count_nanoseconds() {
    let second = Duration::from_secs(1);
    assert_eq!(second.nanos, 1_000_000_000);
    assert_eq!(second, Duration::from_millis(1000));
    assert_eq!(Duration { nanos: 2_999_999 }.as_millis(), 2);
    assert!(Duration { nanos: 0 }.is_zero());
    assert_eq!(second.saturating_sub(Duration { nanos: 1 }).nanos, 999_999_999);
    assert_eq!(Duration { nanos: 1 }.saturating_sub(second).nanos, 0);
    let later = Instant { nanos: 5 }.plus(second);
    assert_eq!(later.saturating_duration_since(Instant { nanos: 5 }), second);
    assert_eq!(Instant { nanos: 5 }.saturating_duration_since(later).nanos, 0);
}

#[test]
fn a_clock_runs_with_the_system() {
    // Each span lies within the next: a pause between two lines lengthens the outer ones too.
    let outer = std::time::Instant::now();
    let clock = Clock::start();
    let first = clock.now();
    let inner = std::time::Instant::now();
    while inner.elapsed() < std::time::Duration::from_millis(5) {}
    let second = clock.now();
    assert!(second.saturating_duration_since(first).nanos >= 5_000_000);
    assert!(second.nanos <= outer.elapsed().as_nanos());
}
