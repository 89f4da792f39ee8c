use sharp_frame_extractor::probe::{frames_in_duration, parse_frame_rate};

fn rate(text: &str) -> Option<(u64, u64)> {
    parse_frame_rate(&text.as_bytes().to_vec())
}

#[test]
fn frame_rate_fractions() {
    assert_eq!(rate("30/1"), Some((30, 1)));
    assert_eq!(rate("30000/1001"), Some((30000, 1001)));
    assert_eq!(rate("18446744073709551615/1"), Some((u64::MAX, 1)));
}

#[test]
fn frame_rate_defaults_without_one_slash() {
    assert_eq!(rate("25"), Some((30, 1)));
    assert_eq!(rate(""), Some((30, 1)));
    assert_eq!(rate("1/2/3"), Some((30, 1)));
}

#[test]
fn frame_rate_rejects_bad_parts() {
    assert_eq!(rate("30/0"), None);
    assert_eq!(rate("/1"), None);
    assert_eq!(rate("30/"), None);
    assert_eq!(rate("3x/1"), None);
    assert_eq!(rate("18446744073709551616/1"), None);
}

#[test]
fn frames_in_a_duration() {
    assert_eq!(frames_in_duration(10_000, 30, 1), 300);
    assert_eq!(frames_in_duration(10_000, 30000, 1001), 299);
    assert_eq!(frames_in_duration(0, 30, 1), 0);
    assert_eq!(frames_in_duration(u64::MAX, u64::MAX, 1), u32::MAX);
}
